use game_of_life::board::{Board, SeedError};
use game_of_life::cells::CellSet;
use game_of_life::life::GameOfLife;

fn create_board(x: u32, y: u32) -> Board {
    Board::new(x, y)
}

fn live_cells(board: &Board) -> Vec<(i32, i32)> {
    let mut out = Vec::new();
    for x in 0..board.cols as i32 {
        for y in 0..board.rows as i32 {
            if board.is_cell_alive((x, y)) {
                out.push((x, y));
            }
        }
    }
    out
}

fn board_with(cols: u32, rows: u32, cells: &[(i32, i32)]) -> Board {
    let mut board = Board::new(cols, rows);
    let mut space = CellSet::new();
    for c in cells {
        space.insert(*c);
    }
    board.update(space);
    board
}

#[test]
fn create_empty_board() {
    let board = create_board(0, 0);
    assert_eq!(board.cols, 0);
    assert_eq!(board.rows, 0);
}

#[test]
fn create_10_by_10_board() {
    let board = create_board(10, 10);
    assert_eq!(board.cols, 10);
    assert_eq!(board.rows, 10);
}

#[test]
fn check_point_in_board() {
    let board = create_board(10, 10);
    assert_eq!(board.is_cell_alive((0, 0)), false);
}

#[test]
fn check_update_space() {
    let mut board = create_board(10, 10);
    assert_eq!(board.is_cell_alive((0, 0)), false);
    let mut new_board = CellSet::new();
    new_board.insert((0, 0));
    board.update(new_board);
    assert_eq!(board.is_cell_alive((0, 0)), true);
}

#[test]
fn test_create_random_board() {
    let mut board = create_board(100, 100);
    board.create_random_points(10).unwrap();
    assert_eq!(board.alive_cells(), 10);
}

#[test]
fn new_board_has_no_live_cells() {
    for (c, r) in [(0, 0), (1, 1), (7, 3), (100, 100)] {
        assert_eq!(create_board(c, r).alive_cells(), 0);
    }
}

#[test]
fn seeding_gives_distinct_cells_on_the_board() {
    let mut board = create_board(7, 5);
    board.create_random_points(20).unwrap();
    assert_eq!(board.alive_cells(), 20);
    assert_eq!(live_cells(&board).len(), 20);
}

#[test]
fn seeding_fills_the_whole_board() {
    let mut board = create_board(6, 4);
    assert_eq!(board.create_random_points(24), Ok(()));
    assert_eq!(board.alive_cells(), 24);
    assert_eq!(live_cells(&board).len(), 24);
}

#[test]
fn seeding_zero_cells() {
    let mut board = create_board(0, 0);
    assert_eq!(board.create_random_points(0), Ok(()));
    assert_eq!(board.alive_cells(), 0);
}

#[test]
fn seeding_replaces_earlier_cells() {
    let mut board = create_board(10, 10);
    board.create_random_points(30).unwrap();
    board.create_random_points(5).unwrap();
    assert_eq!(board.alive_cells(), 5);
}

#[test]
fn seeding_more_than_fits_fails() {
    let mut board = create_board(3, 3);
    assert_eq!(board.create_random_points(10), Err(SeedError::TooManyPoints));
    assert_eq!(board.alive_cells(), 0);
    let mut empty = create_board(0, 5);
    assert_eq!(empty.create_random_points(1), Err(SeedError::TooManyPoints));
    assert!(GameOfLife::new((2, 2), 3, 5).is_err());
}

#[test]
fn replace_makes_a_dead_cell_alive() {
    let mut board = board_with(10, 10, &[(1, 1)]);
    assert!(!board.is_cell_alive((4, 5)));
    let mut space = CellSet::new();
    space.insert((4, 5));
    board.update(space);
    assert!(board.is_cell_alive((4, 5)));
    assert!(!board.is_cell_alive((1, 1)));
    assert_eq!(board.alive_cells(), 1);
}

#[test]
fn run_zero_iterations_keeps_the_seed() {
    let mut game = GameOfLife::new((10, 10), 0, 20).unwrap();
    let before = live_cells(&game.board);
    game.run();
    assert_eq!(live_cells(&game.board), before);
    assert_eq!(game.board.alive_cells(), 20);
    assert_eq!(game.initial_points, 20);
}

#[test]
fn next_generation_is_deterministic() {
    let board = board_with(8, 8, &[(1, 1), (1, 2), (2, 2), (3, 5), (4, 5), (5, 5), (6, 1)]);
    let a = board.next_generation();
    let b = board.next_generation();
    assert_eq!(a.len(), b.len());
    for x in -1..9 {
        for y in -1..9 {
            assert_eq!(a.contains((x, y)), b.contains((x, y)));
        }
    }
    assert_eq!(board.alive_cells(), 7);
}

#[test]
fn block_is_a_still_life() {
    let block = [(1, 1), (1, 2), (2, 1), (2, 2)];
    let board = board_with(6, 6, &block);
    let mut game = GameOfLife { board, iterations: 5, initial_points: 4 };
    game.run();
    assert_eq!(live_cells(&game.board), block.to_vec());
}

#[test]
fn blinker_oscillates() {
    let board = board_with(6, 6, &[(2, 1), (2, 2), (2, 3)]);
    let mut game = GameOfLife { board, iterations: 1, initial_points: 3 };
    game.run();
    assert_eq!(live_cells(&game.board), vec![(1, 2), (2, 2), (3, 2)]);
    game.step();
    assert_eq!(live_cells(&game.board), vec![(2, 1), (2, 2), (2, 3)]);
}

#[test]
fn corner_cell_neighbours() {
    let board = board_with(5, 5, &[(0, 0), (0, 1), (1, 0), (1, 1)]);
    assert_eq!(board.neighbours((0, 0)), 3);
    assert_eq!(board.neighbours((-1, -1)), 1);
    assert_eq!(board.neighbours((i32::MIN, i32::MAX)), 0);
    assert_eq!(board.neighbours((i32::MAX, i32::MIN)), 0);
    let next = board.next_generation();
    assert_eq!(next.len(), 4);
}

#[test]
fn neighbours_counts_all_eight() {
    let mut cells = Vec::new();
    for x in 0..3 {
        for y in 0..3 {
            cells.push((x, y));
        }
    }
    let board = board_with(3, 3, &cells);
    assert_eq!(board.neighbours((1, 1)), 8);
    assert_eq!(board.neighbours((0, 1)), 5);
    assert_eq!(board.neighbours((2, 2)), 3);
}

#[test]
fn crowded_cells_die_and_dead_cells_with_three_are_born() {
    let mut cells = Vec::new();
    for x in 0..3 {
        for y in 0..3 {
            cells.push((x, y));
        }
    }
    let board = board_with(3, 3, &cells);
    let next = board.next_generation();
    assert_eq!(next.len(), 4);
    for c in [(0, 0), (0, 2), (2, 0), (2, 2)] {
        assert!(next.contains(c));
    }
}

#[test]
fn births_stay_on_the_board() {
    // (1, -1) has three live neighbours but lies off the board
    let board = board_with(3, 3, &[(0, 0), (1, 0), (2, 0)]);
    let next = board.next_generation();
    assert!(!next.contains((1, -1)));
    assert!(next.contains((1, 1)));
    assert!(next.contains((1, 0)));
    assert_eq!(next.len(), 2);
}

#[test]
fn lonely_cell_dies() {
    let mut game = GameOfLife { board: board_with(4, 4, &[(2, 2)]), iterations: 1, initial_points: 1 };
    game.run();
    assert_eq!(game.board.alive_cells(), 0);
}

#[test]
fn render_text() {
    let board = board_with(2, 3, &[(0, 1), (1, 2)]);
    assert_eq!(board.render(), "==\n#*#\n##*\n==\n\n");
    assert_eq!(create_board(0, 0).render(), "\n\n\n");
}

#[test]
fn character_of_each_cell() {
    let board = board_with(2, 3, &[(0, 1)]);
    assert_eq!(board.get_character(0, 1), "*");
    assert_eq!(board.get_character(0, 0), "#");
    assert_eq!(board.get_character(1, 3), "\n");
    assert_eq!(board.get_character(u32::MAX, 1), "#");
}

#[test]
fn cell_set_operations() {
    let mut s = CellSet::new();
    assert_eq!(s.len(), 0);
    assert!(s.insert((i32::MIN, i32::MAX)));
    assert!(s.insert((i32::MAX, i32::MIN)));
    assert!(!s.insert((i32::MIN, i32::MAX)));
    assert!(s.insert((-1, -1)));
    assert_eq!(s.len(), 3);
    assert!(s.contains((-1, -1)));
    assert!(!s.contains((1, 1)));
    assert!(!s.contains((i32::MIN, i32::MIN)));
}

#[test]
fn game_new_seeds_the_board() {
    let game = GameOfLife::new((20, 30), 7, 50).unwrap();
    assert_eq!(game.board.cols, 20);
    assert_eq!(game.board.rows, 30);
    assert_eq!(game.iterations, 7);
    assert_eq!(game.board.alive_cells(), 50);
    assert_eq!(live_cells(&game.board).len(), 50);
}
