use snake_game::cell::{Cell, Direction};
use snake_game::collidable::Collidable;
use snake_game::data_transfer::MessageReciever;
use snake_game::game::Game;
use snake_game::snake::Snake;

fn snake(body: Vec<Cell>, dir: Direction, w: i8, h: i8) -> Snake {
    Snake {
        body,
        current_direction: dir,
        prev_tail: None,
        direction_locked: false,
        field_width: w,
        field_height: h,
    }
}

fn cell(x: i8, y: i8) -> Cell {
    Cell { x, y }
}

#[test]
fn peek_moves_one_cell() {
    let s = snake(vec![cell(3, 1)], Direction::Right, 20, 20);
    assert_eq!(s.peek(), cell(4, 1));
    let s = snake(vec![cell(3, 1)], Direction::Left, 20, 20);
    assert_eq!(s.peek(), cell(2, 1));
    let s = snake(vec![cell(3, 4)], Direction::Up, 20, 20);
    assert_eq!(s.peek(), cell(3, 3));
    let s = snake(vec![cell(3, 4)], Direction::Down, 20, 20);
    assert_eq!(s.peek(), cell(3, 5));
}

#[test]
fn peek_wraps_at_every_edge() {
    let s = snake(vec![cell(19, 7)], Direction::Right, 20, 10);
    assert_eq!(s.peek(), cell(0, 7));
    let s = snake(vec![cell(0, 7)], Direction::Left, 20, 10);
    assert_eq!(s.peek(), cell(19, 7));
    let s = snake(vec![cell(4, 0)], Direction::Up, 20, 10);
    assert_eq!(s.peek(), cell(4, 9));
    let s = snake(vec![cell(4, 9)], Direction::Down, 20, 10);
    assert_eq!(s.peek(), cell(4, 0));
}

#[test]
fn reversal_is_always_dropped() {
    let mut s = snake(vec![cell(3, 1), cell(2, 1)], Direction::Right, 20, 20);
    s.change_direction(Direction::Left);
    assert_eq!(s.current_direction, Direction::Right);
    // the handled reversal still engages the lock
    s.change_direction(Direction::Up);
    assert_eq!(s.current_direction, Direction::Right);
}

#[test]
fn second_change_in_a_tick_is_dropped() {
    let mut s = snake(vec![cell(3, 1), cell(2, 1)], Direction::Right, 20, 20);
    s.change_direction(Direction::Up);
    assert_eq!(s.current_direction, Direction::Up);
    s.change_direction(Direction::Down);
    assert_eq!(s.current_direction, Direction::Up);
    // the next move releases the lock
    s.move_forward(false);
    s.change_direction(Direction::Right);
    assert_eq!(s.current_direction, Direction::Right);
}

#[test]
fn move_forward_grows_on_apple() {
    let mut s = snake(vec![cell(3, 1), cell(2, 1), cell(1, 1)], Direction::Right, 20, 20);
    s.move_forward(true);
    assert_eq!(s.body, vec![cell(4, 1), cell(3, 1), cell(2, 1), cell(1, 1)]);
    assert_eq!(s.prev_tail, None);
}

#[test]
fn move_forward_keeps_length_and_records_tail() {
    let mut s = snake(vec![cell(3, 1), cell(2, 1), cell(1, 1)], Direction::Right, 20, 20);
    s.move_forward(false);
    assert_eq!(s.body, vec![cell(4, 1), cell(3, 1), cell(2, 1)]);
    assert_eq!(s.prev_tail, Some(cell(1, 1)));
}

#[test]
fn collidable_covers_all_operand_shapes() {
    let a = cell(2, 3);
    let b = cell(2, 3);
    let c = cell(4, 4);
    assert!(a.collides_with(&b));
    assert!(!a.collides_with(&c));
    let group = vec![cell(1, 1), cell(2, 3)];
    assert!(a.collides_with(&group));
    assert!(group.collides_with(&a));
    assert!(!c.collides_with(&group));
    let other = vec![cell(9, 9), cell(2, 3)];
    assert!(group.collides_with(&other));
    let disjoint = vec![cell(9, 9), cell(8, 8)];
    assert!(!group.collides_with(&disjoint));
}

#[test]
fn collision_checks_use_post_move_shapes() {
    let me = snake(vec![cell(3, 1), cell(2, 1)], Direction::Right, 20, 20);
    let other = snake(vec![cell(3, 1), cell(3, 2)], Direction::Up, 20, 20);
    assert!(me.check_collisions(&other));
    let far = snake(vec![cell(9, 9)], Direction::Up, 20, 20);
    assert!(!me.check_collisions(&far));
    let looped = snake(
        vec![cell(2, 2), cell(2, 3), cell(3, 3), cell(3, 2), cell(2, 2)],
        Direction::Up,
        20,
        20,
    );
    assert!(looped.check_collisions_with_self());
    let straight = snake(vec![cell(3, 1), cell(2, 1)], Direction::Right, 20, 20);
    assert!(!straight.check_collisions_with_self());
}

#[test]
fn mutual_head_on_kills_both_and_stops_the_game() {
    let a = snake(vec![cell(2, 1), cell(1, 1)], Direction::Right, 20, 20);
    let b = snake(vec![cell(4, 1), cell(5, 1)], Direction::Left, 20, 20);
    let mut g = Game {
        height: 20,
        width: 20,
        is_running: true,
        snakes: vec![a, b],
        players: vec![String::from("A"), String::from("B")],
        apple_position: Some(cell(10, 10)),
    };
    g.tick();
    assert_eq!(g.players.len(), 0);
    assert_eq!(g.snakes.len(), 0);
    assert!(!g.is_running);
}

#[test]
fn running_into_another_body_kills_only_the_runner() {
    let a = snake(vec![cell(3, 2), cell(2, 2)], Direction::Up, 20, 20);
    let b = snake(vec![cell(2, 1), cell(3, 1), cell(4, 1)], Direction::Left, 20, 20);
    let mut g = Game {
        height: 20,
        width: 20,
        is_running: true,
        snakes: vec![a, b],
        players: vec![String::from("A"), String::from("B")],
        apple_position: Some(cell(10, 10)),
    };
    // A's next head is (3,1), inside B's moved body (1,1),(2,1),(3,1)
    g.tick();
    assert_eq!(g.players, vec![String::from("B")]);
    assert_eq!(g.snakes.len(), 1);
    assert!(g.is_running);
}

#[test]
fn self_collision_removes_the_last_snake_and_stops() {
    let looped = snake(
        vec![cell(2, 2), cell(3, 2), cell(3, 3), cell(2, 3), cell(2, 4)],
        Direction::Up,
        20,
        20,
    );
    // next head is (2,1); no self hit yet — first check a harmless tick
    let mut g = Game {
        height: 20,
        width: 20,
        is_running: true,
        snakes: vec![looped],
        players: vec![String::from("A")],
        apple_position: None,
    };
    g.tick();
    assert_eq!(g.players.len(), 1);
    // steer it into its own body: head (2,1) -> right -> (3,1), down into (3,2)
    g.snakes[0].change_direction(Direction::Right);
    g.tick();
    g.snakes[0].change_direction(Direction::Down);
    g.tick();
    assert_eq!(g.players.len(), 0);
    assert!(!g.is_running);
}

#[test]
fn apple_ahead_grows_snake_and_respawns_apple() {
    let s = snake(vec![cell(3, 1), cell(2, 1), cell(1, 1)], Direction::Right, 20, 20);
    let mut g = Game {
        height: 20,
        width: 20,
        is_running: true,
        snakes: vec![s],
        players: vec![String::from("A")],
        apple_position: Some(cell(4, 1)),
    };
    g.tick();
    assert_eq!(g.snakes[0].body.len(), 4);
    assert_eq!(g.snakes[0].body[0], cell(4, 1));
    let ap = g.apple_position.expect("a fresh apple must be assigned");
    assert!(ap.x >= 0 && ap.x < 20 && ap.y >= 0 && ap.y < 20);
    // the fresh apple avoids the snake's body (no tail was vacated)
    assert!(!g.snakes[0].body.contains(&ap));
}

#[test]
fn apple_not_ahead_leaves_apple_alone() {
    let s = snake(vec![cell(3, 1), cell(2, 1)], Direction::Right, 20, 20);
    let mut g = Game {
        height: 20,
        width: 20,
        is_running: true,
        snakes: vec![s],
        players: vec![String::from("A")],
        apple_position: Some(cell(9, 9)),
    };
    g.tick();
    assert_eq!(g.apple_position, Some(cell(9, 9)));
}

#[test]
fn respawn_picks_the_single_free_cell() {
    // one snake covers every cell of a 5x5 field except (0,0)
    let mut body = Vec::new();
    for x in 0..5 {
        for y in 0..5 {
            if !(x == 0 && y == 0) {
                body.push(cell(x, y));
            }
        }
    }
    let s = snake(body, Direction::Right, 5, 5);
    let mut g = Game {
        height: 5,
        width: 5,
        is_running: true,
        snakes: vec![s],
        players: vec![String::from("A")],
        apple_position: None,
    };
    g.respawn_apple();
    assert_eq!(g.apple_position, Some(cell(0, 0)));
}

#[test]
fn respawn_treats_vacated_tail_cell_as_free() {
    // every cell occupied, but the tail just vacated (4,4)
    let mut body = Vec::new();
    for x in 0..5 {
        for y in 0..5 {
            body.push(cell(x, y));
        }
    }
    let mut s = snake(body, Direction::Right, 5, 5);
    s.prev_tail = Some(cell(4, 4));
    let mut g = Game {
        height: 5,
        width: 5,
        is_running: true,
        snakes: vec![s],
        players: vec![String::from("A")],
        apple_position: None,
    };
    g.respawn_apple();
    assert_eq!(g.apple_position, Some(cell(4, 4)));
}

#[test]
fn add_player_uses_the_four_layouts() {
    let mut g = Game::new(20, 20);
    g.add_player(String::from("A"));
    g.add_player(String::from("B"));
    g.add_player(String::from("C"));
    g.add_player(String::from("D"));
    assert_eq!(g.snakes[0].body, vec![cell(3, 1), cell(2, 1), cell(1, 1)]);
    assert_eq!(g.snakes[0].current_direction, Direction::Right);
    assert_eq!(g.snakes[1].body, vec![cell(16, 18), cell(17, 18), cell(18, 18)]);
    assert_eq!(g.snakes[1].current_direction, Direction::Left);
    assert_eq!(g.snakes[2].body, vec![cell(18, 3), cell(18, 2), cell(18, 1)]);
    assert_eq!(g.snakes[2].current_direction, Direction::Down);
    assert_eq!(g.snakes[3].body, vec![cell(1, 16), cell(1, 17), cell(1, 18)]);
    assert_eq!(g.snakes[3].current_direction, Direction::Up);
    assert_eq!(g.players, vec!["A", "B", "C", "D"]);
}

#[test]
fn tick_carries_a_snake_across_the_edge() {
    let s = snake(vec![cell(19, 7), cell(18, 7)], Direction::Right, 20, 10);
    let mut g = Game {
        height: 10,
        width: 20,
        is_running: true,
        snakes: vec![s],
        players: vec![String::from("A")],
        apple_position: None,
    };
    g.tick();
    assert_eq!(g.snakes[0].body, vec![cell(0, 7), cell(19, 7)]);
    assert_eq!(g.snakes[0].prev_tail, Some(cell(18, 7)));
}

#[test]
fn tick_after_last_quit_stops_the_game() {
    let mut g = Game::new(20, 20);
    g.handle_input(String::from("add,A"));
    g.handle_input(String::from("start"));
    assert!(g.is_running);
    g.handle_input(String::from("quit,A"));
    // the quit itself leaves the run flag; the next tick notices
    assert!(g.is_running);
    g.tick();
    assert!(!g.is_running);
    assert_eq!(g.players.len(), 0);
}

#[test]
fn start_spawns_free_apple_and_stop_keeps_players() {
    let mut g = Game::new(20, 20);
    g.add_player(String::from("A"));
    g.start();
    assert!(g.is_running);
    let ap = g.apple_position.expect("start must spawn an apple");
    assert!(ap.x >= 0 && ap.x < 20 && ap.y >= 0 && ap.y < 20);
    assert!(!g.snakes[0].body.contains(&ap));
    g.stop();
    assert!(!g.is_running);
    assert_eq!(g.players.len(), 1);
    assert_eq!(g.snakes.len(), 1);
}
