use minesweeper::game::board::Board;
use minesweeper::game::Stage;

/// The ten mines of the nine by nine board that the games below are played on.
///
/// ```text
/// * 1 1 * 1 0 0 1 1
/// 2 2 2 1 1 0 0 1 *
/// 1 * 1 0 1 2 2 2 1
/// 1 1 1 0 1 * * 1 0
/// 0 1 1 1 1 2 2 1 0
/// 0 1 * 1 0 0 1 1 1
/// 0 1 1 2 1 1 1 * 1
/// 1 1 0 1 * 1 1 1 1
/// * 1 0 1 1 1 0 0 0
/// ```
fn ten_mines() -> Vec<(i32, i32)> {
    vec![(0, 0), (3, 0), (8, 1), (1, 2), (5, 3), (6, 3), (2, 5), (7, 6), (4, 7), (0, 8)]
}

fn revealed(board: &Board) -> Vec<(i32, i32)> {
    let (cols, rows) = board.dim();
    let mut cells = Vec::new();
    for col in 0..cols {
        for row in 0..rows {
            if board.get((col, row)).unwrap().is_mined {
                cells.push((col, row));
            }
        }
    }
    cells
}

fn flagged(board: &Board) -> Vec<(i32, i32)> {
    let (cols, rows) = board.dim();
    let mut cells = Vec::new();
    for col in 0..cols {
        for row in 0..rows {
            if board.get((col, row)).unwrap().is_flagged {
                cells.push((col, row));
            }
        }
    }
    cells
}

fn snapshot(board: &Board) -> (Vec<(i32, i32)>, Vec<(i32, i32)>, u8, Stage, u32) {
    (revealed(board), flagged(board), board.flags(), board.check_state(), board.percentage())
}

#[test]
fn revealing_a_numbered_cell_reveals_only_that_cell() {
    let mut board = Board::with_mines(9, 9, &ten_mines()).unwrap();
    board.mine((1, 1));
    assert_eq!(revealed(&board), vec![(1, 1)]);
    assert_eq!(board.get((1, 1)).unwrap().value, Some(2));
    assert_eq!(board.check_state(), Stage::Playing);
}

#[test]
fn revealing_a_zero_cell_floods_its_region_and_border() {
    let mut board = Board::with_mines(9, 9, &ten_mines()).unwrap();
    board.mine((5, 1));
    assert_eq!(
        revealed(&board),
        vec![
            (4, 0), (4, 1), (4, 2), (5, 0), (5, 1), (5, 2), (6, 0), (6, 1), (6, 2), (7, 0), (7, 1),
            (7, 2)
        ]
    );
    assert_eq!(board.check_state(), Stage::Playing);
    assert_eq!(board.percentage(), 14);
}

#[test]
fn flood_from_the_left_edge() {
    let mut board = Board::with_mines(9, 9, &ten_mines()).unwrap();
    board.mine((0, 5));
    assert_eq!(
        revealed(&board),
        vec![(0, 3), (0, 4), (0, 5), (0, 6), (0, 7), (1, 3), (1, 4), (1, 5), (1, 6), (1, 7)]
    );
    assert_eq!(board.percentage(), 12);
}

#[test]
fn flood_in_the_corner() {
    let mut board = Board::with_mines(9, 9, &ten_mines()).unwrap();
    board.mine((8, 8));
    assert_eq!(
        revealed(&board),
        vec![(5, 7), (5, 8), (6, 7), (6, 8), (7, 7), (7, 8), (8, 7), (8, 8)]
    );
    assert_eq!(board.percentage(), 9);
}

#[test]
fn flood_reveals_no_mine_and_no_cell_beyond_the_border() {
    let mut board = Board::with_mines(9, 9, &ten_mines()).unwrap();
    board.mine((5, 1));
    for (col, row) in revealed(&board) {
        let tile = board.get((col, row)).unwrap();
        assert!(!tile.is_mine);
        // every revealed cell is a zero cell or touches a revealed zero cell
        let touches_zero = board.get_adjacent_tiles((col, row)).iter().any(|&n| {
            let t = board.get(n).unwrap();
            t.is_mined && t.value == Some(0)
        });
        assert!(tile.value == Some(0) || touches_zero);
    }
}

#[test]
fn flood_skips_flagged_cells() {
    let mut board = Board::with_mines(9, 9, &ten_mines()).unwrap();
    board.flag((6, 0));
    board.mine((5, 1));
    assert_eq!(
        revealed(&board),
        vec![
            (4, 0), (4, 1), (4, 2), (5, 0), (5, 1), (5, 2), (6, 1), (6, 2), (7, 0), (7, 1), (7, 2)
        ]
    );
    assert_eq!(flagged(&board), vec![(6, 0)]);
}

#[test]
fn flood_does_not_pass_through_a_flagged_zero_cell() {
    // a corridor one cell high, with a mine at its far end
    // 0 0 0 0 1 *
    let mut board = Board::with_mines(6, 1, &vec![(5, 0)]).unwrap();
    board.flag((2, 0));
    board.mine((0, 0));
    assert_eq!(revealed(&board), vec![(0, 0), (1, 0)]);
    board.flag((2, 0));
    board.mine((2, 0));
    assert_eq!(revealed(&board), vec![(0, 0), (1, 0), (2, 0), (3, 0), (4, 0)]);
    assert_eq!(board.check_state(), Stage::Win);
}

#[test]
fn flood_over_a_whole_board_wins_at_once() {
    let mut board = Board::with_mines(5, 5, &vec![(4, 4)]).unwrap();
    board.mine((0, 0));
    assert_eq!(revealed(&board).len(), 24);
    assert!(!board.get((4, 4)).unwrap().is_mined);
    assert_eq!(board.check_state(), Stage::Win);
    assert_eq!(board.percentage(), 96);
}

#[test]
fn flood_goes_round_a_mine_in_the_middle() {
    let mut board = Board::with_mines(5, 5, &vec![(2, 2)]).unwrap();
    board.mine((0, 0));
    let cells = revealed(&board);
    assert_eq!(cells.len(), 24);
    assert!(!cells.contains(&(2, 2)));
    assert_eq!(board.check_state(), Stage::Win);
}

#[test]
fn flood_stops_at_a_wall_of_mines() {
    // 0 0 2 * 2 0
    // 0 0 3 * 3 0   (six rows, a wall of mines in the fourth column)
    let wall: Vec<(i32, i32)> = (0..6).map(|row| (3, row)).collect();
    let mut board = Board::with_mines(6, 6, &wall).unwrap();
    board.mine((0, 0));
    let mut expected = Vec::new();
    for col in 0..3 {
        for row in 0..6 {
            expected.push((col, row));
        }
    }
    assert_eq!(revealed(&board), expected);
    assert_eq!(board.check_state(), Stage::Playing);
    assert_eq!(board.percentage(), 50);
    board.mine((5, 5));
    assert_eq!(revealed(&board).len(), 30);
    assert_eq!(board.check_state(), Stage::Win);
    assert_eq!(board.percentage(), 83);
}

#[test]
fn revealing_a_mine_loses_the_game() {
    let mut board = Board::with_mines(9, 9, &ten_mines()).unwrap();
    board.mine((3, 0));
    assert_eq!(revealed(&board), vec![(3, 0)]);
    assert_eq!(board.check_state(), Stage::Lose);
}

#[test]
fn a_lost_game_stays_lost_and_takes_no_more_moves() {
    let mut board = Board::with_mines(9, 9, &ten_mines()).unwrap();
    board.mine((1, 1));
    board.mine((0, 0));
    assert_eq!(board.check_state(), Stage::Lose);
    let lost = snapshot(&board);
    board.mine((5, 1));
    board.mine((1, 1));
    board.mine((8, 1));
    assert_eq!(snapshot(&board), lost);
    assert_eq!(board.check_state(), Stage::Lose);
    assert_eq!(board.check_state(), Stage::Lose);
    board.flag((4, 4));
    assert_eq!(board.check_state(), Stage::Lose);
}

#[test]
fn revealing_every_safe_cell_wins_with_the_mines_untouched() {
    let mines = vec![(0, 0), (2, 1)];
    let mut board = Board::with_mines(3, 3, &mines).unwrap();
    for cell in [(1, 0), (2, 0), (0, 1), (1, 1), (1, 2), (2, 2)] {
        board.mine(cell);
        assert_eq!(board.check_state(), Stage::Playing);
    }
    board.mine((0, 2));
    assert_eq!(board.check_state(), Stage::Win);
    assert_eq!(flagged(&board), vec![]);
    assert!(!board.get((0, 0)).unwrap().is_mined);
    assert!(!board.get((2, 1)).unwrap().is_mined);
    assert_eq!(board.percentage(), 77);
}

#[test]
fn a_won_game_stays_won() {
    let mut board = Board::with_mines(5, 5, &vec![(4, 4)]).unwrap();
    board.mine((0, 0));
    assert_eq!(board.check_state(), Stage::Win);
    let won = snapshot(&board);
    board.mine((4, 4));
    assert_eq!(snapshot(&board), won);
    assert_eq!(board.check_state(), Stage::Win);
    board.flag((4, 4));
    assert_eq!(board.check_state(), Stage::Win);
}

#[test]
fn a_board_without_mines_is_won_by_the_first_move() {
    let mut board = Board::with_mines(3, 2, &vec![]).unwrap();
    assert_eq!(board.check_state(), Stage::Playing);
    board.mine((1, 1));
    assert_eq!(revealed(&board).len(), 6);
    assert_eq!(board.check_state(), Stage::Win);
    assert_eq!(board.percentage(), 100);
}

#[test]
fn a_flagged_cell_is_not_revealed() {
    let mut board = Board::with_mines(9, 9, &ten_mines()).unwrap();
    board.flag((0, 0));
    let before = snapshot(&board);
    board.mine((0, 0));
    assert_eq!(snapshot(&board), before);
    assert_eq!(board.check_state(), Stage::Playing);
}

#[test]
fn chord_with_matching_flags_reveals_the_other_neighbours() {
    // * 1 0 0
    // 1 1 0 0
    // 0 0 1 1
    // 0 0 1 *
    let mut board = Board::with_mines(4, 4, &vec![(0, 0), (3, 3)]).unwrap();
    board.mine((1, 1));
    assert_eq!(revealed(&board), vec![(1, 1)]);
    board.flag((0, 0));
    board.mine((1, 1));
    let cells = revealed(&board);
    for neighbour in [(0, 1), (0, 2), (1, 0), (1, 2), (2, 0), (2, 1), (2, 2)] {
        assert!(cells.contains(&neighbour));
    }
    // the zero cells among them spread the reveal over the rest of the board
    assert_eq!(
        cells,
        vec![
            (0, 1), (0, 2), (0, 3), (1, 0), (1, 1), (1, 2), (1, 3), (2, 0), (2, 1), (2, 2), (2, 3),
            (3, 0), (3, 1), (3, 2)
        ]
    );
    assert_eq!(flagged(&board), vec![(0, 0)]);
    assert_eq!(board.flags(), 1);
    assert_eq!(board.check_state(), Stage::Win);
    assert_eq!(board.percentage(), 93);
}

#[test]
fn chord_without_matching_flags_changes_nothing() {
    let mut board = Board::with_mines(4, 4, &vec![(0, 0), (3, 3)]).unwrap();
    board.mine((1, 1));
    let before = snapshot(&board);
    // no flag around a cell that counts one mine
    board.mine((1, 1));
    assert_eq!(snapshot(&board), before);
    // two flags around it
    board.flag((0, 0));
    board.flag((1, 0));
    let before = snapshot(&board);
    board.mine((1, 1));
    assert_eq!(snapshot(&board), before);
    assert_eq!(board.check_state(), Stage::Playing);
}

#[test]
fn chord_on_a_revealed_zero_cell_with_a_flag_next_to_it_changes_nothing() {
    let mut board = Board::with_mines(9, 9, &ten_mines()).unwrap();
    board.flag((6, 0));
    board.mine((5, 1));
    let before = snapshot(&board);
    // (5, 0) is revealed, counts no mine and has one flag next to it
    board.mine((5, 0));
    assert_eq!(snapshot(&board), before);
    // without the flag the count is matched and the cell is revealed
    board.flag((6, 0));
    board.mine((5, 0));
    assert!(board.get((6, 0)).unwrap().is_mined);
}

#[test]
fn chord_trusts_a_wrong_flag_and_loses() {
    let mut board = Board::with_mines(4, 4, &vec![(0, 0), (3, 3)]).unwrap();
    board.mine((1, 1));
    board.flag((1, 0));
    board.mine((1, 1));
    assert_eq!(board.check_state(), Stage::Lose);
    let cells = revealed(&board);
    assert!(cells.contains(&(0, 0)));
    assert!(!cells.contains(&(1, 0)));
    // the other neighbours are revealed all the same
    assert_eq!(
        cells,
        vec![
            (0, 0), (0, 1), (0, 2), (0, 3), (1, 1), (1, 2), (1, 3), (2, 0), (2, 1), (2, 2), (2, 3),
            (3, 0), (3, 1), (3, 2)
        ]
    );
}

#[test]
fn flags_start_at_the_number_of_mines() {
    let board = Board::with_mines(9, 9, &ten_mines()).unwrap();
    assert_eq!(board.flags(), 10);
    assert_eq!(board.mines(), 10);
}

#[test]
fn flagging_takes_a_flag_and_unflagging_gives_it_back() {
    let mut board = Board::with_mines(9, 9, &ten_mines()).unwrap();
    board.flag((4, 4));
    assert_eq!(board.flags(), 9);
    assert!(board.get((4, 4)).unwrap().is_flagged);
    board.flag((0, 0));
    assert_eq!(board.flags(), 8);
    board.flag((4, 4));
    assert_eq!(board.flags(), 9);
    assert!(!board.get((4, 4)).unwrap().is_flagged);
    assert_eq!(flagged(&board), vec![(0, 0)]);
}

#[test]
fn flagging_is_rejected_when_no_flag_is_left() {
    let mut board = Board::with_mines(4, 4, &vec![(0, 0), (3, 3)]).unwrap();
    board.flag((1, 0));
    board.flag((2, 0));
    assert_eq!(board.flags(), 0);
    let before = snapshot(&board);
    board.flag((3, 0));
    assert_eq!(snapshot(&board), before);
    assert!(!board.get((3, 0)).unwrap().is_flagged);
    // a flag can still be taken back
    board.flag((1, 0));
    assert_eq!(board.flags(), 1);
    assert!(!board.get((1, 0)).unwrap().is_flagged);
    board.flag((3, 0));
    assert_eq!(board.flags(), 0);
    assert!(board.get((3, 0)).unwrap().is_flagged);
}

#[test]
fn a_board_without_mines_takes_no_flag() {
    let mut board = Board::with_mines(2, 2, &vec![]).unwrap();
    board.flag((0, 0));
    assert_eq!(board.flags(), 0);
    assert_eq!(flagged(&board), vec![]);
}

#[test]
fn a_revealed_cell_takes_no_flag() {
    let mut board = Board::with_mines(9, 9, &ten_mines()).unwrap();
    board.mine((1, 1));
    let before = snapshot(&board);
    board.flag((1, 1));
    assert_eq!(snapshot(&board), before);
    assert_eq!(board.flags(), 10);
}

#[test]
fn flags_may_be_placed_before_the_mines_are_laid() {
    let mut board = Board::custom(5, 5, 3).unwrap();
    board.flag((2, 2));
    assert_eq!(board.flags(), 2);
    assert!(board.first_move());
    assert!(board.get((2, 2)).unwrap().is_flagged);
}

#[test]
fn flagging_a_mine_counts_towards_the_percentage() {
    let mut board = Board::with_mines(5, 2, &vec![(0, 0), (4, 1)]).unwrap();
    assert_eq!(board.percentage(), 0);
    board.flag((0, 0));
    assert_eq!(board.percentage(), 10);
    // a flag on a safe cell does not count
    board.flag((2, 0));
    assert_eq!(board.percentage(), 10);
    board.flag((2, 0));
    board.mine((2, 0));
    // (1, 0) .. (3, 0) and (1, 1) .. (3, 1) are revealed: six cells and a flagged mine
    assert_eq!(revealed(&board).len(), 6);
    assert_eq!(board.percentage(), 70);
}

#[test]
fn a_game_on_nine_by_nine_from_flood_to_loss() {
    let mut board = Board::with_mines(9, 9, &ten_mines()).unwrap();
    assert_eq!(board.check_state(), Stage::Playing);
    board.mine((5, 1));
    assert_eq!(
        revealed(&board),
        vec![
            (4, 0), (4, 1), (4, 2), (5, 0), (5, 1), (5, 2), (6, 0), (6, 1), (6, 2), (7, 0), (7, 1),
            (7, 2)
        ]
    );
    assert_eq!(board.check_state(), Stage::Playing);
    board.mine((8, 1));
    assert_eq!(board.check_state(), Stage::Lose);
    assert_eq!(revealed(&board).len(), 13);
    assert!(board.get((8, 1)).unwrap().is_mined);
}

#[test]
fn flag_tells_whether_the_cell_is_flagged_afterwards() {
    let mut board = Board::with_mines(4, 4, &vec![(0, 0)]).unwrap();
    assert!(board.flag((2, 2)));
    // no flag is left in hand
    assert!(!board.flag((3, 3)));
    assert!(!board.flag((2, 2)));
    board.mine((0, 1));
    assert!(!board.flag((0, 1)));
    assert!(board.flag((0, 0)));
    assert_eq!(flagged(&board), vec![(0, 0)]);
}
