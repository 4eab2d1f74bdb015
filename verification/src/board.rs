//! Dense boards of cells, stored column by column: `board[x][y]` is the cell
//! in column `x` and row `y`, `true` when it is alive.

use vstd::prelude::*;

verus! {

/// What a board holds, column by column.
pub open spec fn cells_of(board: Seq<Vec<bool>>) -> Seq<Seq<bool>> {
    Seq::new(board.len(), |x: int| board[x]@)
}

/// Whether `cells` is a full board of `x_size` columns, each of `y_size`
/// rows.
pub open spec fn is_board(cells: Seq<Seq<bool>>, x_size: int, y_size: int) -> bool {
    &&& cells.len() == x_size
    &&& forall|x: int| 0 <= x < cells.len() ==> (#[trigger] cells[x]).len() == y_size
}

/// The board of the given extents on which every cell is dead.
pub open spec fn blank(x_size: int, y_size: int) -> Seq<Seq<bool>> {
    Seq::new(x_size as nat, |x: int| Seq::new(y_size as nat, |y: int| false))
}

/// The board of the same shape as `cells`, column by column, on which every
/// cell is dead.
pub open spec fn cleared(cells: Seq<Seq<bool>>) -> Seq<Seq<bool>> {
    Seq::new(cells.len(), |x: int| Seq::new(cells[x].len(), |y: int| false))
}

/// Allocates a board of `x_size` columns by `y_size` rows with every cell
/// dead. With a zero extent the board has no cells.
pub fn make_board(x_size: usize, y_size: usize) -> (board: Vec<Vec<bool>>)
    ensures
        board@.len() == x_size,
        forall|x: int| 0 <= x < x_size ==> (#[trigger] board@[x])@.len() == y_size,
        forall|x: int, y: int| 0 <= x < x_size && 0 <= y < y_size ==> !(#[trigger] board@[x]@[y]),
        cells_of(board@) == blank(x_size as int, y_size as int),
{
    let mut board: Vec<Vec<bool>> = Vec::with_capacity(x_size);
    for x in 0..x_size
        invariant
            board@.len() == x,
            forall|i: int| 0 <= i < x ==> (#[trigger] board@[i])@ == Seq::new(y_size as nat, |y: int| false),
    {
        let column = vec![false; y_size];
        assert(column@ =~= Seq::new(y_size as nat, |y: int| false));
        board.push(column);
    }
    assert(cells_of(board@) =~= blank(x_size as int, y_size as int));
    board
}

/// Kills every cell of `board` in place; the board keeps its shape.
pub fn clear_board(board: &mut [Vec<bool>])
    ensures
        final(board)@.len() == old(board)@.len(),
        forall|x: int|
            0 <= x < old(board)@.len() ==> (#[trigger] final(board)@[x])@.len() == old(
                board,
            )@[x]@.len(),
        forall|x: int, y: int|
            0 <= x < final(board)@.len() && 0 <= y < final(board)@[x]@.len() ==> !(
            #[trigger] final(board)@[x]@[y]),
        cells_of(final(board)@) == cleared(cells_of(old(board)@)),
{
    let columns = board.len();
    for x in 0..columns
        invariant
            board@.len() == columns,
            columns == old(board)@.len(),
            forall|i: int| 0 <= i < columns ==> (#[trigger] board@[i])@.len() == old(board)@[i]@.len(),
            forall|i: int, j: int| 0 <= i < x && 0 <= j < board@[i]@.len() ==> !(#[trigger] board@[i]@[j]),
    {
        let rows = board[x].len();
        for y in 0..rows
            invariant
                x < columns,
                board@.len() == columns,
                columns == old(board)@.len(),
                rows == board@[x as int]@.len(),
                forall|i: int| 0 <= i < columns ==> (#[trigger] board@[i])@.len() == old(board)@[i]@.len(),
                forall|i: int, j: int| 0 <= i < x && 0 <= j < board@[i]@.len() ==> !(#[trigger] board@[i]@[j]),
                forall|j: int| 0 <= j < y ==> !(#[trigger] board@[x as int]@[j]),
        {
            board[x][y] = false;
        }
    }
    assert(cells_of(board@) =~~= cleared(cells_of(old(board)@)));
}

} // verus!
