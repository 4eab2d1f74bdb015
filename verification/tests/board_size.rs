use gol::topology::BoardSize;

#[test]
fn test_board_size_top_left() {
    let size = BoardSize {
        x_size: 2,
        y_size: 2,
    };
    assert_eq!((1, 1), size.top_left(0, 0));
    assert_eq!((0, 0), size.top_left(1, 1));
    assert_eq!((0, 1), size.top_left(1, 0));
    assert_eq!((1, 0), size.top_left(0, 1));
}

#[test]
fn test_board_size_top() {
    let size = BoardSize {
        x_size: 2,
        y_size: 2,
    };
    assert_eq!((0, 1), size.top(0, 0));
    assert_eq!((1, 0), size.top(1, 1));
    assert_eq!((1, 1), size.top(1, 0));
    assert_eq!((0, 0), size.top(0, 1));
}

#[test]
fn test_board_size_top_right() {
    let size = BoardSize {
        x_size: 2,
        y_size: 2,
    };
    assert_eq!((1, 1), size.top_right(0, 0));
    assert_eq!((0, 0), size.top_right(1, 1));
    assert_eq!((0, 1), size.top_right(1, 0));
    assert_eq!((1, 0), size.top_right(0, 1));
}

#[test]
fn test_board_size_left() {
    let size = BoardSize {
        x_size: 2,
        y_size: 2,
    };
    assert_eq!((1, 0), size.left(0, 0));
    assert_eq!((0, 1), size.left(1, 1));
    assert_eq!((0, 0), size.left(1, 0));
    assert_eq!((1, 1), size.left(0, 1));
}

#[test]
fn test_board_size_right() {
    let size = BoardSize {
        x_size: 2,
        y_size: 2,
    };
    assert_eq!((1, 0), size.left(0, 0));
    assert_eq!((0, 1), size.left(1, 1));
    assert_eq!((0, 0), size.left(1, 0));
    assert_eq!((1, 1), size.left(0, 1));
}

#[test]
fn test_board_size_bottom_left() {
    let size = BoardSize {
        x_size: 2,
        y_size: 2,
    };
    assert_eq!((1, 1), size.bottom_left(0, 0));
    assert_eq!((0, 0), size.bottom_left(1, 1));
    assert_eq!((0, 1), size.bottom_left(1, 0));
    assert_eq!((1, 0), size.bottom_left(0, 1));
}

#[test]
fn test_board_size_bottom() {
    let size = BoardSize {
        x_size: 2,
        y_size: 2,
    };
    assert_eq!((0, 1), size.bottom(0, 0));
    assert_eq!((1, 0), size.bottom(1, 1));
    assert_eq!((1, 1), size.bottom(1, 0));
    assert_eq!((0, 0), size.bottom(0, 1));
}

#[test]
fn test_board_size_bottom_right() {
    let size = BoardSize {
        x_size: 2,
        y_size: 2,
    };
    assert_eq!((1, 1), size.bottom_right(0, 0));
    assert_eq!((0, 0), size.bottom_right(1, 1));
    assert_eq!((0, 1), size.bottom_right(1, 0));
    assert_eq!((1, 0), size.bottom_right(0, 1));
}

#[test]
fn right_wraps_from_the_last_column_to_the_first() {
    let size = BoardSize {
        x_size: 2,
        y_size: 2,
    };
    assert_eq!((1, 0), size.right(0, 0));
    assert_eq!((0, 1), size.right(1, 1));
    assert_eq!((0, 0), size.right(1, 0));
    assert_eq!((1, 1), size.right(0, 1));
}

#[test]
fn neighbors_inside_the_board_are_one_step_away() {
    let size = BoardSize {
        x_size: 5,
        y_size: 7,
    };
    assert_eq!((1, 2), size.top_left(2, 3));
    assert_eq!((2, 2), size.top(2, 3));
    assert_eq!((3, 2), size.top_right(2, 3));
    assert_eq!((1, 3), size.left(2, 3));
    assert_eq!((3, 3), size.right(2, 3));
    assert_eq!((1, 4), size.bottom_left(2, 3));
    assert_eq!((2, 4), size.bottom(2, 3));
    assert_eq!((3, 4), size.bottom_right(2, 3));
}

#[test]
fn corners_wrap_to_the_opposite_corner() {
    let size = BoardSize {
        x_size: 5,
        y_size: 7,
    };
    assert_eq!((4, 6), size.top_left(0, 0));
    assert_eq!((0, 0), size.bottom_right(4, 6));
    assert_eq!((0, 6), size.top_right(4, 0));
    assert_eq!((4, 0), size.bottom_left(0, 6));
}

#[test]
fn edges_wrap_to_the_opposite_edge() {
    let size = BoardSize {
        x_size: 5,
        y_size: 7,
    };
    assert_eq!((4, 3), size.left(0, 3));
    assert_eq!((0, 3), size.right(4, 3));
    assert_eq!((2, 6), size.top(2, 0));
    assert_eq!((2, 0), size.bottom(2, 6));
    assert_eq!((4, 6), size.top_left(0, 0));
    assert_eq!((1, 6), size.top_left(2, 0));
    assert_eq!((4, 2), size.top_left(0, 3));
    assert_eq!((0, 4), size.bottom_right(4, 3));
    assert_eq!((3, 0), size.bottom_right(2, 6));
}

#[test]
fn on_a_single_cell_every_neighbor_is_the_cell_itself() {
    let size = BoardSize {
        x_size: 1,
        y_size: 1,
    };
    assert_eq!((0, 0), size.top_left(0, 0));
    assert_eq!((0, 0), size.top(0, 0));
    assert_eq!((0, 0), size.top_right(0, 0));
    assert_eq!((0, 0), size.left(0, 0));
    assert_eq!((0, 0), size.right(0, 0));
    assert_eq!((0, 0), size.bottom_left(0, 0));
    assert_eq!((0, 0), size.bottom(0, 0));
    assert_eq!((0, 0), size.bottom_right(0, 0));
}

#[test]
fn stepping_back_undoes_stepping_forth() {
    let size = BoardSize {
        x_size: 3,
        y_size: 2,
    };
    for x in 0..3usize {
        for y in 0..2usize {
            let (a, b) = size.top_left(x, y);
            assert_eq!((x, y), size.bottom_right(a, b));
            let (a, b) = size.top(x, y);
            assert_eq!((x, y), size.bottom(a, b));
            let (a, b) = size.top_right(x, y);
            assert_eq!((x, y), size.bottom_left(a, b));
            let (a, b) = size.left(x, y);
            assert_eq!((x, y), size.right(a, b));
        }
    }
}
