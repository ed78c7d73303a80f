use rust_sweeper::app::sweeper_controller::SweeperController;
use rust_sweeper::app::{App, AppState, Difficulty, Key, KeyInput};
use rust_sweeper::model::sweeper::GameState;
use std::time::Duration;

#[test]
fn test_new_controller() {
    let controller = SweeperController::new();
    assert_eq!(controller.cursor, (0, 0));
    assert!(controller.game.is_none());
}

#[test]
fn test_move_cursor() {
    let mut controller = SweeperController::new();
    controller.start_game(4, 4, 0);

    controller.move_cursor(1, 1);
    assert_eq!(controller.cursor, (1, 1));
    controller.move_cursor(-1, -1);
    assert_eq!(controller.cursor, (0, 0));
    controller.move_cursor(-1, -1); // should not move out of bounds
    assert_eq!(controller.cursor, (0, 0));
    controller.move_cursor(3, 3);
    assert_eq!(controller.cursor, (3, 3));
    controller.move_cursor(1, 1); // should not move out of bounds
    assert_eq!(controller.cursor, (3, 3));
}

#[test]
fn controller_first_open_is_safe_and_starts() {
    for _ in 0..20 {
        let mut controller = SweeperController::new();
        controller.start_game(5, 5, 24);
        assert!(!controller.is_running());
        assert!(controller.in_play());
        assert_eq!(controller.get_elapsed_time(), Duration::ZERO);
        controller.move_cursor(2, 2);
        controller.open();
        let game = controller.game.as_ref().unwrap();
        assert!(!game.board.cells[12].is_bomb);
        assert!(game.board.cells[12].is_revealed);
        assert_eq!(game.board.cells.iter().filter(|c| c.is_bomb).count(), 24);
        // the only safe cell is revealed: the game is won
        assert_eq!(game.state, GameState::Win);
        assert!(!controller.is_running());
        assert!(!controller.in_play());
    }
}

#[test]
fn controller_resign_and_flag() {
    let mut controller = SweeperController::new();
    controller.resign();
    controller.flag();
    controller.open();
    assert!(controller.game.is_none());
    controller.start_game(4, 4, 3);
    controller.open();
    controller.resign();
    assert_eq!(controller.game.as_ref().unwrap().state, GameState::Lose);
    assert!(!controller.is_running());
}

fn key(k: Key) -> KeyInput {
    KeyInput { key: k, control: false }
}

#[test]
fn difficulty_settings_and_cycle() {
    let b = Difficulty::Beginner.setting();
    assert_eq!((b.width, b.height, b.bomb_count), (10, 10, 10));
    let i = Difficulty::Intermediate.setting();
    assert_eq!((i.width, i.height, i.bomb_count), (16, 16, 40));
    let e = Difficulty::Expert.setting();
    assert_eq!((e.width, e.height, e.bomb_count), (30, 16, 99));
    assert_eq!(Difficulty::Beginner.next(), Difficulty::Intermediate);
    assert_eq!(Difficulty::Intermediate.next(), Difficulty::Expert);
    assert_eq!(Difficulty::Expert.next(), Difficulty::Beginner);
    assert_eq!(Difficulty::Expert.label(), "Expert");
}

#[test]
fn app_keys() {
    let mut app = App::new();
    assert_eq!(app.state(), AppState::Menu);
    app.on_key_event(key(Key::Char('d')));
    assert_eq!(app.difficulty(), Difficulty::Intermediate);
    app.on_key_event(key(Key::Char('n')));
    assert_eq!(app.state(), AppState::InGame);
    let g = app.controller().game.as_ref().unwrap();
    assert_eq!((g.board.width, g.board.height, g.num_bombs), (16, 16, 40));
    app.on_key_event(key(Key::Right));
    app.on_key_event(key(Key::Down));
    assert_eq!(app.controller().cursor, (1, 1));
    app.on_key_event(key(Key::Char('f')));
    assert_eq!(app.controller().game.as_ref().unwrap().num_flags, 0);
    app.on_key_event(key(Key::Char(' ')));
    assert!(app.controller().game.as_ref().unwrap().board.cells[17].is_revealed);
    app.on_key_event(key(Key::Esc));
    assert_eq!(app.state(), AppState::InGame);
    assert!(!app.controller().is_running());
    app.on_key_event(key(Key::Char('q')));
    assert_eq!(app.state(), AppState::Exit);
}

#[test]
fn app_ctrl_c_quits() {
    let mut app = App::new();
    app.on_key_event(KeyInput { key: Key::Char('c'), control: false });
    assert_eq!(app.state(), AppState::Menu);
    app.on_key_event(KeyInput { key: Key::Char('C'), control: true });
    assert_eq!(app.state(), AppState::Exit);
}

#[test]
fn controller_running_versus_in_play() {
    let mut controller = SweeperController::new();
    assert!(!controller.is_running());
    assert!(!controller.in_play());
    controller.start_game(4, 4, 1);
    assert!(!controller.is_running());
    assert!(controller.in_play());
    controller.open();
    let state = controller.game.as_ref().unwrap().state;
    assert_eq!(controller.is_running(), state == GameState::Running);
}

#[test]
fn app_escape_before_first_open_quits() {
    let mut app = App::new();
    app.on_key_event(key(Key::Char('n')));
    app.on_key_event(key(Key::Esc));
    assert_eq!(app.state(), AppState::Exit);
}
