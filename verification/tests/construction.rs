use minesweeper::game::board::{Board, ConfigError};
use minesweeper::game::tile::Tile;
use minesweeper::game::{Size, Stage};

fn blank() -> Tile {
    Tile { value: Some(0), is_mine: false, is_flagged: false, is_mined: false }
}

#[test]
fn small_board_is_nine_by_nine_with_ten_mines() {
    let board = Board::new(Size::Small);
    assert_eq!(board.dim(), (9, 9));
    assert_eq!(board.mines(), 10);
    assert_eq!(board.flags(), 10);
    assert_eq!(board.size(), Some(Size::Small));
}

#[test]
fn normal_board_is_sixteen_by_sixteen_with_forty_mines() {
    let board = Board::new(Size::Normal);
    assert_eq!(board.dim(), (16, 16));
    assert_eq!(board.mines(), 40);
    assert_eq!(board.flags(), 40);
    assert_eq!(board.size(), Some(Size::Normal));
}

#[test]
fn large_board_is_eighteen_by_thirty_with_ninety_nine_mines() {
    let board = Board::new(Size::Large);
    assert_eq!(board.dim(), (18, 30));
    assert_eq!(board.mines(), 99);
    assert_eq!(board.flags(), 99);
    assert_eq!(board.size(), Some(Size::Large));
}

#[test]
fn size_lookup_matches_the_three_difficulties() {
    assert_eq!(Size::Small.dim(), (9, 9));
    assert_eq!(Size::Normal.dim(), (16, 16));
    assert_eq!(Size::Large.dim(), (18, 30));
    assert_eq!(Size::Small.mines(), 10);
    assert_eq!(Size::Normal.mines(), 40);
    assert_eq!(Size::Large.mines(), 99);
}

#[test]
fn size_names() {
    assert_eq!(Size::Small.to_string(), "Small");
    assert_eq!(Size::Normal.to_string(), "Normal");
    assert_eq!(Size::Large.to_string(), "Large");
}

#[test]
fn new_board_is_blank_and_playing() {
    let board = Board::new(Size::Small);
    assert!(board.first_move());
    assert_eq!(board.check_state(), Stage::Playing);
    assert_eq!(board.percentage(), 0);
    for row in 0..9 {
        for col in 0..9 {
            assert_eq!(board.get((col, row)), Some(&blank()));
        }
    }
}

#[test]
fn new_board_has_a_stopped_stopwatch_at_zero() {
    let board = Board::new(Size::Normal);
    assert_eq!(board.stopwatch().elapsed(), 0);
}

#[test]
fn get_is_none_off_the_grid() {
    let board = Board::new(Size::Large);
    assert!(board.get((17, 29)).is_some());
    assert_eq!(board.get((18, 0)), None);
    assert_eq!(board.get((0, 30)), None);
    assert_eq!(board.get((-1, 0)), None);
    assert_eq!(board.get((0, -1)), None);
    assert_eq!(board.get((i32::MAX, i32::MIN)), None);
}

#[test]
fn custom_board_of_valid_size() {
    let board = Board::custom(4, 5, 6).unwrap();
    assert_eq!(board.dim(), (4, 5));
    assert_eq!(board.mines(), 6);
    assert_eq!(board.flags(), 6);
    assert_eq!(board.size(), None);
    assert!(board.first_move());
    for row in 0..5 {
        for col in 0..4 {
            assert_eq!(board.get((col, row)), Some(&blank()));
        }
    }
}

#[test]
fn custom_board_rejects_bad_dimensions() {
    assert_eq!(Board::custom(0, 5, 1).err(), Some(ConfigError::BadDimensions));
    assert_eq!(Board::custom(5, 0, 1).err(), Some(ConfigError::BadDimensions));
    assert_eq!(Board::custom(-3, 4, 0).err(), Some(ConfigError::BadDimensions));
    assert_eq!(Board::custom(i32::MAX, i32::MAX, 0).err(), Some(ConfigError::BadDimensions));
    // 6554 * 6554 = 42_954_916 cells, just over the limit of 42_949_672
    assert_eq!(Board::custom(6554, 6554, 0).err(), Some(ConfigError::BadDimensions));
}

#[test]
fn custom_board_needs_room_outside_the_safe_block() {
    // 4 x 4 = 16 cells, of which the block around the first move may take 9
    assert!(Board::custom(4, 4, 6).is_ok());
    assert_eq!(Board::custom(4, 4, 7).err(), Some(ConfigError::TooManyMines));
    assert_eq!(Board::custom(4, 4, 200).err(), Some(ConfigError::TooManyMines));
    // on a grid of three by three the block may cover every cell
    assert_eq!(Board::custom(3, 3, 0).err(), Some(ConfigError::TooManyMines));
    // a strip two cells wide: 2 x 10 = 20 cells, the block takes up to 2 x 3
    assert!(Board::custom(2, 10, 13).is_ok());
    assert_eq!(Board::custom(2, 10, 14).err(), Some(ConfigError::TooManyMines));
    // a single row: 1 x 10 cells, the block takes up to 1 x 3
    assert!(Board::custom(10, 1, 6).is_ok());
    assert_eq!(Board::custom(10, 1, 7).err(), Some(ConfigError::TooManyMines));
}

#[test]
fn with_mines_places_exactly_the_listed_mines() {
    let mines = vec![(0, 0), (2, 1)];
    let board = Board::with_mines(3, 3, &mines).unwrap();
    assert_eq!(board.dim(), (3, 3));
    assert_eq!(board.mines(), 2);
    assert_eq!(board.flags(), 2);
    assert_eq!(board.size(), None);
    assert!(!board.first_move());
    assert_eq!(board.check_state(), Stage::Playing);
    for row in 0..3 {
        for col in 0..3 {
            let tile = board.get((col, row)).unwrap();
            assert_eq!(tile.is_mine, mines.contains(&(col, row)));
            assert!(!tile.is_flagged);
            assert!(!tile.is_mined);
        }
    }
}

#[test]
fn with_mines_accepts_a_board_without_mines() {
    let board = Board::with_mines(2, 2, &vec![]).unwrap();
    assert_eq!(board.mines(), 0);
    assert_eq!(board.flags(), 0);
    for row in 0..2 {
        for col in 0..2 {
            assert_eq!(board.get((col, row)), Some(&blank()));
        }
    }
}

#[test]
fn with_mines_rejects_bad_dimensions() {
    assert_eq!(Board::with_mines(0, 3, &vec![]).err(), Some(ConfigError::BadDimensions));
    assert_eq!(Board::with_mines(3, -1, &vec![]).err(), Some(ConfigError::BadDimensions));
    assert_eq!(Board::with_mines(0, 0, &vec![(0, 0)]).err(), Some(ConfigError::BadDimensions));
}

#[test]
fn with_mines_rejects_more_than_255_mines() {
    let mut mines = Vec::new();
    for row in 0..16 {
        for col in 0..16 {
            mines.push((col, row));
        }
    }
    assert_eq!(mines.len(), 256);
    assert_eq!(Board::with_mines(16, 16, &mines).err(), Some(ConfigError::TooManyMines));
    mines.pop();
    let board = Board::with_mines(16, 16, &mines).unwrap();
    assert_eq!(board.mines(), 255);
}

#[test]
fn with_mines_rejects_a_mine_off_the_grid() {
    assert_eq!(Board::with_mines(3, 3, &vec![(3, 0)]).err(), Some(ConfigError::MineOutside));
    assert_eq!(Board::with_mines(3, 3, &vec![(0, 3)]).err(), Some(ConfigError::MineOutside));
    assert_eq!(Board::with_mines(3, 3, &vec![(1, 1), (-1, 0)]).err(), Some(ConfigError::MineOutside));
    // a mine off the grid is reported even when another mine is listed twice
    assert_eq!(
        Board::with_mines(3, 3, &vec![(1, 1), (1, 1), (0, 9)]).err(),
        Some(ConfigError::MineOutside)
    );
}

#[test]
fn with_mines_rejects_two_mines_on_one_cell() {
    assert_eq!(
        Board::with_mines(3, 3, &vec![(1, 1), (2, 2), (1, 1)]).err(),
        Some(ConfigError::MineRepeated)
    );
}
