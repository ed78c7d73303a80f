use rust_sweeper::app::sweeper::{GameState, SweeperGame};

#[test]
fn sweeper_test_new_game() {
    let game = SweeperGame::new(10, 10, 20);
    assert_eq!(game.board.width, 10);
    assert_eq!(game.board.height, 10);
    assert_eq!(game.num_bombs, 20);
    assert_eq!(game.num_revealed, 0);
    assert_eq!(game.num_flags, 0);
    assert_eq!(game.state, GameState::Running);
    assert_eq!(game.cursor, (0, 0));

    // Test sum of bombs
    let num_bombs = game.board.cells.iter().filter(|&cell| cell.is_bomb).count();
    assert_eq!(num_bombs, game.num_bombs);
}

#[test]
fn sweeper_test_cell_index() {
    let game = SweeperGame::new(10, 10, 0);
    assert_eq!(game.cell_index(0, 0), Some(0));
    assert_eq!(game.cell_index(9, 9), Some(99));
    assert_eq!(game.cell_index(10, 10), None);
    assert_eq!(game.cell_index(-1, -1), None);
}

#[test]
fn test_adjacent_unopened_cells() {
    let game = SweeperGame::new(10, 10, 0);
    assert_eq!(game.adjacent_unopened_cells(0), vec![1, 10, 11]);
    assert_eq!(game.adjacent_unopened_cells(9), vec![8, 18, 19]);
    assert_eq!(game.adjacent_unopened_cells(90), vec![80, 81, 91]);
    assert_eq!(game.adjacent_unopened_cells(99), vec![88, 89, 98]);
    assert_eq!(game.adjacent_unopened_cells(1), vec![0, 2, 10, 11, 12]);
    assert_eq!(game.adjacent_unopened_cells(10), vec![0, 1, 11, 20, 21]);
    assert_eq!(
        game.adjacent_unopened_cells(11),
        vec![0, 1, 2, 10, 12, 20, 21, 22]
    );
}

#[test]
fn sweeper_test_open_simple() {
    let mut game = SweeperGame::new(10, 10, 0);

    // Bombs
    for i in [10, 11] {
        game.board.cells[i].is_bomb = true;
    }

    assert_eq!(game.open(0, 0), GameState::Running);
    assert_eq!(game.num_revealed, 1);
    assert_eq!(game.board.cells[0].is_revealed, true);
    assert_eq!(game.board.cells[0].mine_count, 2);
}

#[test]
fn sweeper_test_open_bomb() {
    let mut game = SweeperGame::new(10, 10, 0);
    game.board.cells[0].is_bomb = true;

    assert_eq!(game.open(0, 0), GameState::Lose);
}

#[test]
fn sweeper_test_open_multiple() {
    let mut game = SweeperGame::new(10, 10, 0);

    // Bombs
    // 0 1 .
    // 2 3 x
    // x x .
    for i in [20, 21, 12] {
        game.board.cells[i].is_bomb = true;
    }

    assert_eq!(game.open(0, 0), GameState::Running);
    assert_eq!(game.num_revealed, 4);
    assert_eq!(game.board.cells[0].is_revealed, true);
    assert_eq!(game.board.cells[0].mine_count, 0);
    assert_eq!(game.board.cells[1].is_revealed, true);
    assert_eq!(game.board.cells[1].mine_count, 1);
    assert_eq!(game.board.cells[10].is_revealed, true);
    assert_eq!(game.board.cells[10].mine_count, 2);
    assert_eq!(game.board.cells[11].is_revealed, true);
    assert_eq!(game.board.cells[11].mine_count, 3);
}

#[test]
fn first_sweeper_unopened_skips_revealed() {
    let mut game = SweeperGame::new(10, 10, 0);
    game.board.cells[20].is_bomb = true;
    game.num_bombs = 1;
    game.open(0, 0);
    assert!(game.board.cells[10].is_revealed);
    assert_eq!(game.adjacent_unopened_cells(0), Vec::<usize>::new());
    assert_eq!(game.adjacent_unopened_cells(10), vec![20]);
}

#[test]
fn first_sweeper_counts_each_cell_once_and_wins() {
    let mut game = SweeperGame::new(10, 10, 0);
    game.board.cells[0].is_bomb = true;
    game.num_bombs = 1;
    assert_eq!(game.open(5, 5), GameState::Win);
    assert_eq!(game.num_revealed, 99);
}

#[test]
fn first_sweeper_move_cursor_clamps() {
    let mut game = SweeperGame::new(3, 2, 0);
    game.move_cursor(5, 5);
    assert_eq!(game.cursor, (2, 1));
    game.move_cursor(-1, -4);
    assert_eq!(game.cursor, (1, 0));
}

#[test]
fn first_sweeper_flag_toggles() {
    let mut game = SweeperGame::new(4, 4, 0);
    game.flag(1, 1);
    assert!(game.board.cells[5].is_flagged);
    assert_eq!(game.num_flags, 1);
    game.flag(1, 1);
    assert!(!game.board.cells[5].is_flagged);
    assert_eq!(game.num_flags, 0);
}
