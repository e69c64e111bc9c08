use snake_game::cell::{Cell, Direction};
use snake_game::data_transfer::{
    split_commas, parse_command, Command, MessageProducer, MessageReciever, OutMessage,
};
use snake_game::game::Game;
use snake_game::snake::Snake;

#[test]
fn split_keeps_every_field() {
    assert_eq!(split_commas("ch,A,up"), vec!["ch", "A", "up"]);
    assert_eq!(split_commas("start"), vec!["start"]);
    assert_eq!(split_commas(""), vec![""]);
    assert_eq!(split_commas("a,,b,"), vec!["a", "", "b", ""]);
}

#[test]
fn parse_reads_every_command_shape() {
    match parse_command("add,Alice") {
        Command::AddPlayer(id) => assert_eq!(id, "Alice"),
        _ => panic!("expected an add command"),
    }
    assert!(matches!(parse_command("start"), Command::Start));
    match parse_command("ch,A,up") {
        Command::ChangeDirection(id, d) => {
            assert_eq!(id, "A");
            assert_eq!(d, Some(Direction::Up));
        },
        _ => panic!("expected a direction change"),
    }
    match parse_command("ch,A,diagonal") {
        Command::ChangeDirection(id, d) => {
            assert_eq!(id, "A");
            assert_eq!(d, None);
        },
        _ => panic!("expected a direction change"),
    }
    match parse_command("quit,A") {
        Command::Quit(id) => assert_eq!(id, "A"),
        _ => panic!("expected a quit command"),
    }
    assert!(matches!(parse_command("ch,A"), Command::Malformed));
    assert!(matches!(parse_command("quit"), Command::Malformed));
    assert!(matches!(parse_command("add"), Command::Noop));
    assert!(matches!(parse_command("hello,world"), Command::Noop));
    assert!(matches!(parse_command(""), Command::Noop));
}

#[test]
fn two_player_start_moves_init_to_state_with_free_apple() {
    let mut g = Game::new(20, 20);
    g.handle_input(String::from("add,A"));
    g.handle_input(String::from("add,B"));
    match g.output_message() {
        OutMessage::Init { field, player_count } => {
            assert_eq!(field, "20x20");
            assert_eq!(player_count, 2);
        },
        _ => panic!("a lobby must report an init message"),
    }
    g.handle_input(String::from("start"));
    let ap = g.apple_position.expect("start must spawn an apple");
    assert!(!g.snakes[0].body.contains(&ap));
    assert!(!g.snakes[1].body.contains(&ap));
    match g.output_message() {
        OutMessage::GameState { players, ap } => {
            assert_eq!(players.len(), 2);
            assert!(!ap.is_empty());
        },
        _ => panic!("a running game must report a state message"),
    }
}

#[test]
fn second_request_in_a_tick_is_ignored() {
    let mut g = Game::new(20, 20);
    g.handle_input(String::from("add,A"));
    g.handle_input(String::from("start"));
    // A starts moving right; the first request is handled and locks
    g.handle_input(String::from("ch,A,right"));
    assert_eq!(g.snakes[0].current_direction, Direction::Right);
    // the second would reverse the first request's outcome: dropped
    g.handle_input(String::from("ch,A,left"));
    assert_eq!(g.snakes[0].current_direction, Direction::Right);
    // even a non-reversal is dropped while the lock is engaged
    g.handle_input(String::from("ch,A,up"));
    assert_eq!(g.snakes[0].current_direction, Direction::Right);
}

#[test]
fn second_request_reverses_the_first_requests_outcome() {
    let mut g = Game::new(20, 20);
    g.handle_input(String::from("add,A"));
    g.handle_input(String::from("start"));
    // turn the snake up first, over one tick, so a right turn is legal
    g.handle_input(String::from("ch,A,up"));
    g.tick();
    assert_eq!(g.snakes[0].current_direction, Direction::Up);
    // first request accepted: the snake now heads right
    g.handle_input(String::from("ch,A,right"));
    assert_eq!(g.snakes[0].current_direction, Direction::Right);
    // the follow-up reverses the first request's outcome and is dropped
    g.handle_input(String::from("ch,A,left"));
    assert_eq!(g.snakes[0].current_direction, Direction::Right);
}

#[test]
fn unrecognized_direction_word_does_not_engage_the_lock() {
    let mut g = Game::new(20, 20);
    g.handle_input(String::from("add,A"));
    g.handle_input(String::from("start"));
    g.handle_input(String::from("ch,A,sideways"));
    assert_eq!(g.snakes[0].current_direction, Direction::Right);
    g.handle_input(String::from("ch,A,up"));
    assert_eq!(g.snakes[0].current_direction, Direction::Up);
}

#[test]
fn quit_removes_player_and_snake() {
    let mut g = Game::new(20, 20);
    g.handle_input(String::from("add,A"));
    g.handle_input(String::from("add,B"));
    g.handle_input(String::from("quit,A"));
    assert_eq!(g.players, vec![String::from("B")]);
    assert_eq!(g.snakes.len(), 1);
    assert_eq!(g.snakes[0].current_direction, Direction::Left);
}

#[test]
fn unknown_verbs_are_ignored() {
    let mut g = Game::new(20, 20);
    g.handle_input(String::from("add,A"));
    g.handle_input(String::from("jump,A"));
    g.handle_input(String::from("add"));
    assert_eq!(g.players, vec![String::from("A")]);
    assert!(!g.is_running);
}

#[test]
fn state_message_renders_bodies_tail_marker_and_apple() {
    let s = Snake {
        body: vec![Cell { x: 3, y: 1 }, Cell { x: 2, y: 1 }, Cell { x: 1, y: 1 }],
        current_direction: Direction::Right,
        prev_tail: Some(Cell { x: 0, y: 9 }),
        direction_locked: false,
        field_width: 20,
        field_height: 20,
    };
    let g = Game {
        height: 20,
        width: 20,
        is_running: true,
        snakes: vec![s],
        players: vec![String::from("A")],
        apple_position: Some(Cell { x: 5, y: 7 }),
    };
    match g.output_message() {
        OutMessage::GameState { players, ap } => {
            assert_eq!(ap, "5x7");
            assert_eq!(players.len(), 1);
            assert_eq!(players[0].0, "A");
            assert_eq!(players[0].1, "3x1,2x1,1x1+0x9");
        },
        _ => panic!("a running game must report a state message"),
    }
}

#[test]
fn state_message_with_no_apple_renders_empty_text() {
    let s = Snake {
        body: vec![Cell { x: 3, y: 1 }],
        current_direction: Direction::Right,
        prev_tail: None,
        direction_locked: false,
        field_width: 100,
        field_height: 100,
    };
    let g = Game {
        height: 100,
        width: 100,
        is_running: true,
        snakes: vec![s],
        players: vec![String::from("P")],
        apple_position: None,
    };
    match g.output_message() {
        OutMessage::GameState { players, ap } => {
            assert_eq!(ap, "");
            assert_eq!(players[0].1, "3x1");
        },
        _ => panic!("a running game must report a state message"),
    }
}

#[test]
fn init_message_renders_three_digit_sizes() {
    let g = Game::new(100, 100);
    match g.output_message() {
        OutMessage::Init { field, player_count } => {
            assert_eq!(field, "100x100");
            assert_eq!(player_count, 0);
        },
        _ => panic!("a lobby must report an init message"),
    }
}
