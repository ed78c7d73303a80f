use rust_sweeper::model::sweeper::{BoardError, GameState, SweeperGame};
use std::time::Duration;

#[test]
fn test_new_game() {
    let mut game = SweeperGame::new(10, 10, 20);
    assert!(game.generate_board(0, 0).is_ok());
    assert_eq!(game.state, GameState::NotRunning);
    game.start();
    assert_eq!(game.board.width, 10);
    assert_eq!(game.board.height, 10);
    assert_eq!(game.num_bombs, 20);
    assert_eq!(game.num_revealed, 0);
    assert_eq!(game.num_flags, 0);
    assert_eq!(game.state, GameState::Running);

    // Test sum of bombs
    let num_bombs = game.board.cells.iter().filter(|&cell| cell.is_bomb).count();
    assert_eq!(num_bombs, game.num_bombs);
}

#[test]
fn test_cell_index() {
    let game = SweeperGame::new(10, 10, 0);
    assert_eq!(game.cell_index(0, 0), Some(0));
    assert_eq!(game.cell_index(9, 9), Some(99));
    assert_eq!(game.cell_index(10, 10), None);
    assert_eq!(game.cell_index(-1, -1), None);
}

#[test]
fn test_adjacent_cells() {
    let game = SweeperGame::new(10, 10, 0);
    assert_eq!(game.adjacent_cells(0), vec![1, 10, 11]);
    assert_eq!(game.adjacent_cells(9), vec![8, 18, 19]);
    assert_eq!(game.adjacent_cells(90), vec![80, 81, 91]);
    assert_eq!(game.adjacent_cells(99), vec![88, 89, 98]);
    assert_eq!(game.adjacent_cells(1), vec![0, 2, 10, 11, 12]);
    assert_eq!(game.adjacent_cells(10), vec![0, 1, 11, 20, 21]);
    assert_eq!(game.adjacent_cells(11), vec![0, 1, 2, 10, 12, 20, 21, 22]);
}

#[test]
fn test_open_simple() {
    let mut game = SweeperGame::new(10, 10, 0);

    // Bombs
    for i in [10, 11] {
        game.board.cells[i].is_bomb = true;
        game.num_bombs += 1;
    }
    game.start();

    assert_eq!(game.open(0, 0), GameState::Running);
    assert_eq!(game.num_revealed, 1);
    assert_eq!(game.board.cells[0].is_revealed, true);
    assert_eq!(game.board.cells[0].mine_count, 2);
}

#[test]
fn test_open_bomb() {
    let mut game = SweeperGame::new(10, 10, 0);
    game.board.cells[0].is_bomb = true;
    game.start();

    assert_eq!(game.open(0, 0), GameState::Lose);
}

#[test]
fn test_open_multiple() {
    let mut game = SweeperGame::new(10, 10, 0);

    // Bombs
    // 0 1 .
    // 2 3 x
    // x x .
    for i in [20, 21, 12] {
        game.board.cells[i].is_bomb = true;
        game.num_bombs += 1;
    }
    game.start();

    assert_eq!(game.open(0, 0), GameState::Running);
    assert_eq!(game.num_revealed, 4);
    assert_eq!(game.board.cells[0].is_revealed, true);
    assert_eq!(game.board.cells[0].mine_count, 0);
    assert_eq!(game.board.cells[1].is_revealed, true);
    assert_eq!(game.board.cells[1].mine_count, 1);
    assert_eq!(game.board.cells[10].is_revealed, true);
    assert_eq!(game.board.cells[10].mine_count, 2);
    assert_eq!(game.board.cells[11].is_revealed, true);
    assert_eq!(game.board.cells[11].mine_count, 3);
}

#[test]
fn test_open_already_revealed() {
    let mut game = SweeperGame::new(10, 10, 0);

    // Layout
    // 1 F .
    // x . .
    // . . .
    for i in [10] {
        game.board.cells[i].is_bomb = true;
        game.num_bombs += 1;
    }
    game.start();

    assert_eq!(game.open(0, 0), GameState::Running);
    game.flag(1, 0);
    assert_eq!(game.open(0, 0), GameState::Lose);

    assert_eq!(game.num_revealed, 2);
    assert_eq!(game.board.cells[0].is_revealed, true);
    assert_eq!(game.board.cells[1].is_revealed, false);
    assert_eq!(game.board.cells[10].is_revealed, true);
}

#[test]
fn test_open_win() {
    let mut game = SweeperGame::new(10, 10, 0);

    // Layout
    // x 1 0
    // 1 1 0
    // 0 0 0
    game.board.cells[0].is_bomb = true;
    game.num_bombs = 1;
    game.start();

    assert_eq!(game.open(2, 2), GameState::Win);
}

fn game_with_bombs(bombs: &[usize]) -> SweeperGame {
    let mut game = SweeperGame::new(10, 10, 0);
    for &i in bombs {
        game.board.cells[i].is_bomb = true;
        game.num_bombs += 1;
    }
    game.start();
    game
}

#[test]
fn win_reveals_every_safe_cell_and_freezes_time() {
    let mut game = game_with_bombs(&[0]);
    assert_eq!(game.open(2, 2), GameState::Win);
    assert_eq!(game.num_revealed, 99);
    assert!(!game.board.cells[0].is_revealed);
    assert_eq!(game.get_elapsed_time(), game.total_time);
    // a finished game no longer changes
    assert_eq!(game.open(0, 0), GameState::Win);
    assert!(!game.board.cells[0].is_revealed);
    game.flag(0, 0);
    assert_eq!(game.num_flags, 0);
}

#[test]
fn revealed_count_matches_revealed_cells() {
    let mut game = game_with_bombs(&[20, 21, 12]);
    game.open(0, 0);
    game.open(9, 9);
    let revealed = game.board.cells.iter().filter(|c| c.is_revealed).count();
    assert_eq!(revealed, game.num_revealed);
    assert!(game.num_revealed <= 100 - game.num_bombs);
}

#[test]
fn flood_fill_reveals_no_bomb() {
    let mut game = game_with_bombs(&[55, 56, 65]);
    assert_eq!(game.open(0, 0), GameState::Win);
    for i in [55, 56, 65] {
        assert!(!game.board.cells[i].is_revealed);
    }
    assert_eq!(game.num_revealed, 97);
    assert_eq!(game.board.cells[44].mine_count, 1);
    assert_eq!(game.board.cells[66].mine_count, 3);
}

#[test]
fn flag_twice_restores_cell_and_counter() {
    let mut game = game_with_bombs(&[10]);
    game.flag(3, 4);
    assert!(game.board.cells[43].is_flagged);
    assert_eq!(game.num_flags, 1);
    game.flag(3, 4);
    assert!(!game.board.cells[43].is_flagged);
    assert_eq!(game.num_flags, 0);
}

#[test]
fn flag_is_ignored_on_revealed_or_off_board() {
    let mut game = game_with_bombs(&[10]);
    game.open(0, 0);
    game.flag(0, 0);
    assert!(!game.board.cells[0].is_flagged);
    game.flag(-1, 0);
    game.flag(10, 0);
    assert_eq!(game.num_flags, 0);
}

#[test]
fn chord_with_wrong_flag_count_does_nothing() {
    let mut game = game_with_bombs(&[10]);
    assert_eq!(game.open(0, 0), GameState::Running);
    assert_eq!(game.board.cells[0].mine_count, 1);
    // no flag around: the chord does not fire
    assert_eq!(game.open(0, 0), GameState::Running);
    assert_eq!(game.num_revealed, 1);
    assert!(!game.board.cells[1].is_revealed);
}

#[test]
fn chord_with_right_flags_reveals_neighbours() {
    let mut game = game_with_bombs(&[10]);
    game.open(0, 0);
    game.flag(0, 1);
    assert_eq!(game.open(0, 0), GameState::Running);
    assert!(game.board.cells[1].is_revealed);
    assert!(game.board.cells[11].is_revealed);
    assert!(!game.board.cells[10].is_revealed);
}

#[test]
fn open_on_flagged_cell_does_nothing() {
    let mut game = game_with_bombs(&[10]);
    game.flag(5, 5);
    assert_eq!(game.open(5, 5), GameState::Running);
    assert_eq!(game.num_revealed, 0);
}

#[test]
fn open_off_board_or_before_start_does_nothing() {
    let mut game = game_with_bombs(&[10]);
    assert_eq!(game.open(-1, 3), GameState::Running);
    assert_eq!(game.open(3, 10), GameState::Running);
    assert_eq!(game.num_revealed, 0);
    let mut fresh = SweeperGame::new(4, 4, 0);
    assert_eq!(fresh.open(0, 0), GameState::NotRunning);
    assert_eq!(fresh.num_revealed, 0);
}

#[test]
fn generate_board_keeps_safe_cell_clear() {
    for _ in 0..20 {
        let mut game = SweeperGame::new(3, 3, 8);
        assert_eq!(game.generate_board(1, 1), Ok(()));
        assert!(!game.board.cells[4].is_bomb);
        assert_eq!(game.board.cells.iter().filter(|c| c.is_bomb).count(), 8);
    }
}

#[test]
fn generate_board_errors() {
    let mut game = SweeperGame::new(3, 3, 2);
    assert_eq!(game.generate_board(3, 0), Err(BoardError::InvalidCoordinate));
    assert_eq!(game.generate_board(0, -1), Err(BoardError::InvalidCoordinate));
    assert_eq!(game.generate_board(0, 0), Ok(()));
    assert_eq!(game.generate_board(0, 0), Err(BoardError::AlreadyPlaced));
    let mut started = SweeperGame::new(3, 3, 0);
    started.start();
    assert_eq!(started.generate_board(0, 0), Err(BoardError::AlreadyPlaced));
}

#[test]
fn try_new_rejects_bad_configurations() {
    assert_eq!(SweeperGame::try_new(0, 5, 1).err(), Some(BoardError::InvalidSize));
    assert_eq!(SweeperGame::try_new(5, 0, 1).err(), Some(BoardError::InvalidSize));
    assert_eq!(SweeperGame::try_new(usize::MAX, 2, 1).err(), Some(BoardError::InvalidSize));
    assert_eq!(SweeperGame::try_new(3, 3, 9).err(), Some(BoardError::TooManyBombs));
    let game = SweeperGame::try_new(3, 3, 8).unwrap();
    assert_eq!(game.num_bombs, 8);
    assert_eq!(game.board.cells.len(), 9);
}

#[test]
fn elapsed_time_before_start_is_zero() {
    let game = SweeperGame::new(2, 2, 1);
    assert_eq!(game.get_elapsed_time(), Duration::ZERO);
}

#[test]
fn resign_loses_without_revealing() {
    let mut game = game_with_bombs(&[10]);
    game.resign();
    assert_eq!(game.state, GameState::Lose);
    assert_eq!(game.num_revealed, 0);
    assert_eq!(game.get_elapsed_time(), game.total_time);
}

#[test]
fn start_only_from_not_running() {
    let mut game = game_with_bombs(&[10]);
    game.resign();
    game.start();
    assert_eq!(game.state, GameState::Lose);
}

#[test]
fn cell_access() {
    let mut game = game_with_bombs(&[10]);
    game.open(0, 0);
    assert_eq!(game.get_width(), 10);
    assert_eq!(game.get_height(), 10);
    assert!(game.is_valid_coordinate(9, 9));
    assert!(!game.is_valid_coordinate(10, 0));
    assert!(game.get_cell(0, 0).unwrap().is_revealed);
    assert!(game.get_cell(0, 1).unwrap().is_bomb);
    assert!(game.get_cell(0, 10).is_none());
    let rows = game.cell_row_iter();
    assert_eq!(rows.len(), 10);
    assert!(rows.iter().all(|r| r.len() == 10));
    assert!(rows[1][0].is_bomb);
    assert!(rows[0][0].is_revealed);
}

#[test]
fn chord_stops_at_first_bomb_in_order() {
    // cell 11 counts two bombs (1 and 21); a wrong flag on 0 and one right
    // flag on 1 make the chord fire and hit 21 after revealing 2, 10, 12, 20
    let mut game = game_with_bombs(&[1, 21]);
    assert_eq!(game.open(1, 1), GameState::Running);
    assert_eq!(game.board.cells[11].mine_count, 2);
    game.flag(0, 0);
    game.flag(1, 0);
    assert_eq!(game.open(1, 1), GameState::Lose);
    for i in [2, 10, 12, 20, 21] {
        assert!(game.board.cells[i].is_revealed);
    }
    assert!(!game.board.cells[22].is_revealed);
    assert_eq!(game.board.cells[12].mine_count, 0);
    assert_eq!(game.num_revealed, 6);
}

#[test]
fn open_before_placement_does_nothing() {
    let mut game = SweeperGame::new(5, 5, 3);
    assert_eq!(game.open(2, 2), GameState::NotRunning);
    assert_eq!(game.num_revealed, 0);
}

#[test]
fn border_cell_does_not_spread() {
    let mut game = game_with_bombs(&[55]);
    assert_eq!(game.open(4, 4), GameState::Running);
    assert_eq!(game.num_revealed, 1);
    assert_eq!(game.board.cells[44].mine_count, 1);
}
