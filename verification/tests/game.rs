//! Tests for the board-game rules and the slice helpers.

use matrix_lib::mathutil::abs_max;
use matrix_lib::mathutil::arg_abs_max;
use matrix_lib::tictactoe::has_winner;
use matrix_lib::tictactoe::is_occupied;
use matrix_lib::tictactoe::is_over;
use matrix_lib::tictactoe::set_piece;

fn board(cells: &str) -> Vec<char> {
    let v: Vec<char> = cells.chars().collect();
    assert_eq!(v.len(), 9);
    v
}

#[test]
fn test_has_winner_rows_and_columns() {
    assert_eq!(has_winner(&board("XXXNNNNNN")), (true, false));
    assert_eq!(has_winner(&board("NNNOOONNN")), (false, true));
    assert_eq!(has_winner(&board("XNNXNNXNN")), (true, false));
    assert_eq!(has_winner(&board("NONNONNON")), (false, true));
}

#[test]
fn test_has_winner_diagonals() {
    assert_eq!(has_winner(&board("XNNNXNNNX")), (true, false));
    // The rising diagonal is judged by cells 7 and 5 alone: the corner
    // cell 3 never takes part.
    assert_eq!(has_winner(&board("NNNNONONN")), (false, true));
    assert_eq!(has_winner(&board("NNXNXNXNN")), (true, false));
}

#[test]
fn test_has_winner_nobody() {
    assert_eq!(has_winner(&board("NNNNNNNNN")), (false, false));
    assert_eq!(has_winner(&board("XONOXNNNO")), (false, false));
}

#[test]
fn test_has_winner_first_line_in_order_decides() {
    // An X row above an O row: the row scan meets the X row first.
    assert_eq!(has_winner(&board("XXXOOONNN")), (true, false));
}

#[test]
fn test_is_over_counts_marks() {
    assert_eq!(is_over(&board("NNNNNNNNN")), false);
    assert_eq!(is_over(&board("XOXONNNNN")), false);
    // Three of one mark anywhere ends the game.
    assert_eq!(is_over(&board("XNXNNNXNN")), true);
    assert_eq!(is_over(&board("ONONNNONN")), true);
}

#[test]
fn test_set_piece_and_is_occupied() {
    let mut grid = board("NNNNNNNNN");
    assert!(!is_occupied(&grid, 5));
    assert!(!is_occupied(&grid, 4));
    set_piece(&mut grid, 5, 'X');
    assert_eq!(grid[4], 'X');
    assert!(is_occupied(&grid, 5));
    assert!(!is_occupied(&grid, 4));
    set_piece(&mut grid, 1, 'O');
    assert_eq!(grid[0], 'O');
    assert!(is_occupied(&grid, 1));
}

#[test]
fn test_abs_max_values() {
    assert_eq!(abs_max(&[-1, -3, -2, -4]), 4);
    assert_eq!(abs_max(&[1, 2, 3, 4, 5]), 5);
    assert_eq!(abs_max(&[0, 0]), 0);
    assert_eq!(abs_max(&[]), 0);
}

#[test]
fn test_arg_abs_max_values() {
    assert_eq!(arg_abs_max(&[-1, 2, -3, 4]), 3);
    assert_eq!(arg_abs_max(&[5, -5, 2]), 0);
    assert_eq!(arg_abs_max(&[0, 0, 0]), 0);
    assert_eq!(arg_abs_max(&[]), 0);
}
