use snake_game::config::{create_config_from_args, CliError, GameConfig};

fn args(list: &[&str]) -> Vec<String> {
    list.iter().map(|a| String::from(*a)).collect()
}

#[test]
fn no_arguments_yield_the_defaults() {
    let r = create_config_from_args(Vec::new());
    assert_eq!(
        r,
        Ok(GameConfig { field_width: 20, field_height: 20, tick_interval_ms: 500 })
    );
}

#[test]
fn help_wins_over_everything_else() {
    assert_eq!(create_config_from_args(args(&["--help"])), Err(CliError::Help));
    assert_eq!(
        create_config_from_args(args(&["-s", "bad", "--help"])),
        Err(CliError::Help)
    );
}

#[test]
fn size_flag_sets_both_dimensions() {
    let r = create_config_from_args(args(&["-s", "50"]));
    assert_eq!(
        r,
        Ok(GameConfig { field_width: 50, field_height: 50, tick_interval_ms: 500 })
    );
}

#[test]
fn width_height_and_tick_combine() {
    let r = create_config_from_args(args(&["-w", "30", "-h", "40", "-t", "1000"]));
    assert_eq!(
        r,
        Ok(GameConfig { field_width: 30, field_height: 40, tick_interval_ms: 1000 })
    );
}

#[test]
fn out_of_range_values_are_refused() {
    assert_eq!(create_config_from_args(args(&["-h", "120"])), Err(CliError::WrongInput));
    assert_eq!(create_config_from_args(args(&["-w", "4"])), Err(CliError::WrongInput));
    assert_eq!(create_config_from_args(args(&["-t", "99"])), Err(CliError::WrongInput));
    assert_eq!(create_config_from_args(args(&["-t", "10001"])), Err(CliError::WrongInput));
}

#[test]
fn unknown_flags_are_refused() {
    assert_eq!(create_config_from_args(args(&["-x"])), Err(CliError::WrongInput));
    assert_eq!(create_config_from_args(args(&["30"])), Err(CliError::WrongInput));
}

#[test]
fn unparseable_values_are_skipped() {
    let r = create_config_from_args(args(&["-h", "abc"]));
    assert_eq!(
        r,
        Ok(GameConfig { field_width: 20, field_height: 20, tick_interval_ms: 500 })
    );
    // a value beyond u64 does not parse and is skipped the same way
    let r = create_config_from_args(args(&["-t", "18446744073709551616"]));
    assert_eq!(
        r,
        Ok(GameConfig { field_width: 20, field_height: 20, tick_interval_ms: 500 })
    );
}

#[test]
fn trailing_flag_without_value_is_ignored() {
    let r = create_config_from_args(args(&["-w"]));
    assert_eq!(
        r,
        Ok(GameConfig { field_width: 20, field_height: 20, tick_interval_ms: 500 })
    );
}

#[test]
fn signed_values_parse_and_range_check() {
    // "+50" parses like 50
    let r = create_config_from_args(args(&["-s", "+50"]));
    assert_eq!(
        r,
        Ok(GameConfig { field_width: 50, field_height: 50, tick_interval_ms: 500 })
    );
    // "-5" parses as a negative number and fails the range check
    assert_eq!(create_config_from_args(args(&["-s", "-5"])), Err(CliError::WrongInput));
}
