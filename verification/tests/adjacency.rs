use minesweeper::game::board::Board;
use minesweeper::game::Size;

#[test]
fn counts_on_a_three_by_three_grid() {
    // * 2 1
    // 1 2 *
    // 0 1 1
    let board = Board::with_mines(3, 3, &vec![(0, 0), (2, 1)]).unwrap();
    let expected: [[Option<u8>; 3]; 3] =
        [[None, Some(2), Some(1)], [Some(1), Some(2), None], [Some(0), Some(1), Some(1)]];
    for row in 0..3 {
        for col in 0..3 {
            let tile = board.get((col as i32, row as i32)).unwrap();
            assert_eq!(tile.value, expected[row][col], "column {col}, row {row}");
            assert_eq!(tile.is_mine, expected[row][col].is_none());
        }
    }
}

#[test]
fn a_corner_counts_at_most_three_and_the_centre_eight() {
    let ring = vec![(0, 0), (1, 0), (2, 0), (0, 1), (2, 1), (0, 2), (1, 2), (2, 2)];
    let board = Board::with_mines(3, 3, &ring).unwrap();
    assert_eq!(board.get((1, 1)).unwrap().value, Some(8));
    let centre = Board::with_mines(3, 3, &vec![(1, 0), (0, 1), (1, 1)]).unwrap();
    assert_eq!(centre.get((0, 0)).unwrap().value, Some(3));
    assert_eq!(centre.get((2, 2)).unwrap().value, Some(1));
    assert_eq!(centre.get((2, 0)).unwrap().value, Some(2));
    assert_eq!(centre.get((0, 2)).unwrap().value, Some(2));
}

#[test]
fn counts_do_not_wrap_around_the_edges() {
    // mines down the right edge of a grid four wide and three high
    let board = Board::with_mines(4, 3, &vec![(3, 0), (3, 1), (3, 2)]).unwrap();
    for row in 0..3 {
        assert_eq!(board.get((0, row)).unwrap().value, Some(0));
        assert_eq!(board.get((1, row)).unwrap().value, Some(0));
    }
    assert_eq!(board.get((2, 0)).unwrap().value, Some(2));
    assert_eq!(board.get((2, 1)).unwrap().value, Some(3));
    assert_eq!(board.get((2, 2)).unwrap().value, Some(2));
}

#[test]
fn generate_tiles_is_idempotent() {
    let mut board = Board::with_mines(3, 3, &vec![(0, 0), (2, 1)]).unwrap();
    let before: Vec<_> =
        (0..9).map(|i| *board.get((i % 3, i / 3)).unwrap()).collect();
    board.generate_tiles();
    let after: Vec<_> = (0..9).map(|i| *board.get((i % 3, i / 3)).unwrap()).collect();
    assert_eq!(before, after);
}

#[test]
fn neighbours_of_an_inner_cell_in_order() {
    let board = Board::new(Size::Small);
    assert_eq!(
        board.get_adjacent_tiles((4, 4)),
        vec![(3, 3), (3, 4), (3, 5), (5, 3), (5, 4), (5, 5), (4, 3), (4, 5)]
    );
}

#[test]
fn neighbours_of_the_corners() {
    let board = Board::new(Size::Large);
    assert_eq!(board.get_adjacent_tiles((0, 0)), vec![(1, 0), (1, 1), (0, 1)]);
    assert_eq!(board.get_adjacent_tiles((17, 0)), vec![(16, 0), (16, 1), (17, 1)]);
    assert_eq!(board.get_adjacent_tiles((0, 29)), vec![(1, 28), (1, 29), (0, 28)]);
    assert_eq!(board.get_adjacent_tiles((17, 29)), vec![(16, 28), (16, 29), (17, 28)]);
}

#[test]
fn neighbours_on_the_edges() {
    let board = Board::new(Size::Small);
    assert_eq!(board.get_adjacent_tiles((0, 3)), vec![(1, 2), (1, 3), (1, 4), (0, 2), (0, 4)]);
    assert_eq!(board.get_adjacent_tiles((8, 3)), vec![(7, 2), (7, 3), (7, 4), (8, 2), (8, 4)]);
    assert_eq!(board.get_adjacent_tiles((3, 0)), vec![(2, 0), (2, 1), (4, 0), (4, 1), (3, 1)]);
    assert_eq!(board.get_adjacent_tiles((3, 8)), vec![(2, 7), (2, 8), (4, 7), (4, 8), (3, 7)]);
}

#[test]
fn a_single_cell_has_no_neighbours() {
    let board = Board::with_mines(1, 1, &vec![]).unwrap();
    assert_eq!(board.get_adjacent_tiles((0, 0)), vec![]);
}
