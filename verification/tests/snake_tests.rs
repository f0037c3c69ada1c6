use rust_os::keyboard::{Key, KeyCode};
use rust_os::menu::Application;
use rust_os::palette;
use rust_os::random::Rng;
use rust_os::snake::{
    draw_frame, game_over_key_handler, game_tick, plays_again, session_step, snake_key_handler, Direction, GameOverChoice,
    GameState, Rect, SessionStep, SnakeGame, Tile,
};

#[test]
fn direction_tiles() {
    assert_eq!(Direction::Up.get_next_tile(), (0, -1));
    assert_eq!(Direction::Down.get_next_tile(), (0, 1));
    assert_eq!(Direction::Left.get_next_tile(), (-1, 0));
    assert_eq!(Direction::Right.get_next_tile(), (1, 0));
    assert_eq!(Direction::Up.get_previous_tile(), (0, 1));
    assert_eq!(Direction::Down.get_previous_tile(), (0, -1));
    assert_eq!(Direction::Left.get_previous_tile(), (1, 0));
    assert_eq!(Direction::Right.get_previous_tile(), (-1, 0));
}

#[test]
fn opposite_directions() {
    assert!(Direction::Up.is_opposite(&Direction::Down));
    assert!(Direction::Left.is_opposite(&Direction::Right));
    assert!(!Direction::Up.is_opposite(&Direction::Left));
    assert!(!Direction::Up.is_opposite(&Direction::Up));
}

#[test]
fn tile_colors_and_squares() {
    assert_eq!(Tile::Snake.get_color(), palette::GREEN);
    assert_eq!(Tile::Border.get_color(), palette::CYAN);
    assert_eq!(Tile::Apple.get_color(), palette::RED);
    assert_eq!(Tile::Empty.get_color(), palette::BLACK);
    assert_eq!(Tile::Apple.draw(3, 4), Rect { x: 30, y: 40, width: 10, height: 10, color: palette::RED });
}

#[test]
fn snake_is_listed_as_snake() {
    assert_eq!(SnakeGame.name(), "Snake");
}

#[test]
fn new_game_layout() {
    let mut rng = Rng::new();
    let g = GameState::new(&mut rng);
    assert_eq!(g.head_location(), (16, 10));
    assert_eq!(g.current_length(), 3);
    assert_eq!(g.current_direction(), Direction::Right);
    assert!(!g.is_game_over());
    assert_eq!(g.segments(), vec![(16, 10), (15, 10), (14, 10)]);
    // The first proposed cell from the boot state is (1, 14), which is free.
    assert_eq!(g.apple_location(), (1, 14));
    assert_eq!(g.score(), 0);
}

#[test]
fn frame_draws_grid_and_moves_head() {
    let mut rng = Rng::new();
    let mut g = GameState::new(&mut rng);
    draw_frame(&mut g, Direction::Right, &mut rng);
    assert_eq!(g.head_location(), (17, 10));
    assert!(!g.is_game_over());
    assert_eq!(g.tile(0, 0), Tile::Border);
    assert_eq!(g.tile(31, 19), Tile::Border);
    assert_eq!(g.tile(16, 10), Tile::Snake);
    assert_eq!(g.tile(14, 10), Tile::Snake);
    assert_eq!(g.tile(13, 10), Tile::Empty);
    assert_eq!(g.tile(1, 14), Tile::Apple);
    assert_eq!(g.segments(), vec![(17, 10), (16, 10), (15, 10)]);
}

#[test]
fn turning_records_a_turn_point_and_body_follows() {
    let mut rng = Rng::new();
    let mut g = GameState::new(&mut rng);
    draw_frame(&mut g, Direction::Up, &mut rng);
    assert_eq!(g.current_direction(), Direction::Up);
    assert_eq!(g.head_location(), (16, 9));
    assert_eq!(g.turn_count(), 1);
    assert_eq!(g.segments(), vec![(16, 9), (16, 10), (15, 10)]);
    draw_frame(&mut g, Direction::Up, &mut rng);
    assert_eq!(g.segments(), vec![(16, 8), (16, 9), (16, 10)]);
    draw_frame(&mut g, Direction::Up, &mut rng);
    assert_eq!(g.segments(), vec![(16, 7), (16, 8), (16, 9)]);
    // The tail has left the turn cell, so its turn point is gone.
    assert_eq!(g.turn_count(), 0);
}

#[test]
fn reversing_is_ignored() {
    let mut rng = Rng::new();
    let mut g = GameState::new(&mut rng);
    draw_frame(&mut g, Direction::Left, &mut rng);
    assert_eq!(g.current_direction(), Direction::Right);
    assert_eq!(g.head_location(), (17, 10));
    assert_eq!(g.turn_count(), 0);
}

#[test]
fn running_into_the_border_ends_the_game() {
    let mut rng = Rng::new();
    let mut g = GameState::new(&mut rng);
    for _ in 0..14 {
        draw_frame(&mut g, Direction::Right, &mut rng);
        assert!(!g.is_game_over());
    }
    assert_eq!(g.head_location(), (30, 10));
    draw_frame(&mut g, Direction::Right, &mut rng);
    assert!(g.is_game_over());
    assert_eq!(g.head_location(), (31, 10));
    assert_eq!(g.score(), 0);
}

#[test]
fn eating_the_apple_grows_the_snake() {
    let mut rng = Rng::new();
    let mut g = GameState::new(&mut rng);
    // Head at (16, 10), apple at (1, 14): go down 4 rows, then left 15 columns.
    for _ in 0..4 {
        draw_frame(&mut g, Direction::Down, &mut rng);
    }
    assert_eq!(g.head_location(), (16, 14));
    for _ in 0..15 {
        draw_frame(&mut g, Direction::Left, &mut rng);
        assert!(!g.is_game_over());
    }
    assert_eq!(g.head_location(), (1, 14));
    assert_eq!(g.current_length(), 4);
    assert_eq!(g.score(), 1);
    assert_eq!(g.segments().len(), 4);
    let segs = g.segments();
    let apple = g.apple_location();
    assert!(!segs.contains(&apple));
    assert!(apple.0 >= 1 && apple.0 <= 30 && apple.1 >= 1 && apple.1 <= 18);
}

#[test]
fn running_into_itself_ends_the_game() {
    let mut rng = Rng::new();
    let mut g = GameState::new(&mut rng);
    for _ in 0..4 {
        draw_frame(&mut g, Direction::Down, &mut rng);
    }
    for _ in 0..15 {
        draw_frame(&mut g, Direction::Left, &mut rng);
    }
    assert_eq!(g.current_length(), 4);
    // A snake of four cells can bite itself by turning in a tight square.
    draw_frame(&mut g, Direction::Up, &mut rng);
    draw_frame(&mut g, Direction::Right, &mut rng);
    assert!(!g.is_game_over());
    draw_frame(&mut g, Direction::Down, &mut rng);
    assert!(g.is_game_over());
}

#[test]
fn game_tick_runs_every_third_tick() {
    let mut rng = Rng::new();
    let mut state = Some(GameState::new(&mut rng));
    assert!(!game_tick(&mut state, 1, Direction::Right, &mut rng));
    assert_eq!(state.as_ref().unwrap().head_location(), (16, 10));
    assert!(game_tick(&mut state, 3, Direction::Right, &mut rng));
    assert_eq!(state.as_ref().unwrap().head_location(), (17, 10));
    let mut none: Option<GameState> = None;
    assert!(!game_tick(&mut none, 3, Direction::Right, &mut rng));
}

#[test]
fn game_tick_stops_after_game_over() {
    let mut rng = Rng::new();
    let mut state = Some(GameState::new(&mut rng));
    for k in 0..15u64 {
        assert!(game_tick(&mut state, 3 * k, Direction::Right, &mut rng));
    }
    assert!(state.as_ref().unwrap().is_game_over());
    assert!(!game_tick(&mut state, 300, Direction::Right, &mut rng));
    assert_eq!(state.as_ref().unwrap().head_location(), (31, 10));
}

#[test]
fn snake_keys_steer_and_escape() {
    let mut input = Direction::Right;
    let mut exit = false;
    snake_key_handler(Key::Unicode('w'), &mut input, &mut exit);
    assert_eq!(input, Direction::Up);
    snake_key_handler(Key::Unicode('s'), &mut input, &mut exit);
    assert_eq!(input, Direction::Down);
    snake_key_handler(Key::Unicode('a'), &mut input, &mut exit);
    assert_eq!(input, Direction::Left);
    snake_key_handler(Key::Unicode('d'), &mut input, &mut exit);
    assert_eq!(input, Direction::Right);
    snake_key_handler(Key::Unicode('x'), &mut input, &mut exit);
    assert_eq!(input, Direction::Right);
    assert!(!exit);
    snake_key_handler(Key::RawKey(KeyCode::Escape), &mut input, &mut exit);
    assert!(exit);
}

#[test]
fn game_over_keys_choose() {
    let mut choice = None;
    game_over_key_handler(Key::Unicode('q'), &mut choice);
    assert_eq!(choice, None);
    game_over_key_handler(Key::Unicode('R'), &mut choice);
    assert_eq!(choice, Some(GameOverChoice::PlayAgain));
    game_over_key_handler(Key::Unicode('m'), &mut choice);
    assert_eq!(choice, Some(GameOverChoice::ReturnToMenu));
    game_over_key_handler(Key::Unicode('r'), &mut choice);
    game_over_key_handler(Key::RawKey(KeyCode::Escape), &mut choice);
    assert_eq!(choice, Some(GameOverChoice::ReturnToMenu));
    assert!(!plays_again(choice));
    assert!(plays_again(Some(GameOverChoice::PlayAgain)));
    assert!(!plays_again(None));
}

#[test]
fn session_steps() {
    let mut rng = Rng::new();
    let mut state = Some(GameState::new(&mut rng));
    assert_eq!(session_step(&state, false), SessionStep::Continue);
    assert_eq!(session_step(&state, true), SessionStep::Leave);
    assert_eq!(session_step(&None, false), SessionStep::Continue);
    for k in 0..15u64 {
        game_tick(&mut state, 3 * k, Direction::Right, &mut rng);
    }
    assert_eq!(session_step(&state, true), SessionStep::GameOver(0));
}
