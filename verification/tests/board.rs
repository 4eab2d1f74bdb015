use gol::board::{clear_board, make_board};

#[test]
fn test_make_board() {
    let board = make_board(1, 1);
    assert_eq!(1, board.len());
    assert_eq!(1, board[0].len());
}

#[test]
fn test_clear_board() {
    let mut board = make_board(1, 1);
    board[0][0] = true;
    clear_board(&mut board);
    assert!(!board[0][0]);
}

#[test]
fn make_board_is_column_major_and_dead() {
    let board = make_board(3, 2);
    assert_eq!(vec![vec![false, false]; 3], board);
}

#[test]
fn make_board_with_a_zero_extent_has_no_cells() {
    assert_eq!(0, make_board(0, 5).len());
    assert_eq!(vec![Vec::<bool>::new(); 4], make_board(4, 0));
    assert_eq!(0, make_board(0, 0).len());
}

#[test]
fn clear_board_kills_every_cell_and_keeps_the_shape() {
    let mut board = make_board(3, 2);
    board[0][1] = true;
    board[2][0] = true;
    board[1][1] = true;
    clear_board(&mut board);
    assert_eq!(vec![vec![false, false]; 3], board);
}

#[test]
fn clear_board_takes_columns_of_different_lengths() {
    let mut board = vec![vec![true], vec![], vec![true, false, true]];
    clear_board(&mut board);
    assert_eq!(vec![vec![false], vec![], vec![false, false, false]], board);
}
