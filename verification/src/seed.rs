//! Seeding a board: which lists of coordinates may be written to a board,
//! and what the board holds once they have been.

use vstd::prelude::*;
use crate::board::{blank, is_board};

verus! {

/// Whether the coordinate is a cell of a board of the given extents.
pub open spec fn on_board(coordinate: (usize, usize), x_size: int, y_size: int) -> bool {
    coordinate.0 < x_size && coordinate.1 < y_size
}

/// Whether every coordinate of the list is a cell of a board of the given
/// extents.
pub open spec fn all_on_board(coordinates: Seq<(usize, usize)>, x_size: int, y_size: int) -> bool {
    forall|k: int| 0 <= k < coordinates.len() ==> on_board(#[trigger] coordinates[k], x_size, y_size)
}

/// Whether `k` is the place of the first coordinate of the list that is not
/// a cell of a board of the given extents.
pub open spec fn first_off_board(
    coordinates: Seq<(usize, usize)>,
    k: int,
    x_size: int,
    y_size: int,
) -> bool {
    &&& 0 <= k < coordinates.len()
    &&& !on_board(coordinates[k], x_size, y_size)
    &&& all_on_board(coordinates.take(k), x_size, y_size)
}

/// Whether the list names the cell `(x, y)`.
pub open spec fn names(coordinates: Seq<(usize, usize)>, x: int, y: int) -> bool {
    exists|k: int|
        0 <= k < coordinates.len() && (#[trigger] coordinates[k]).0 == x && coordinates[k].1 == y
}

/// The board `cells` with the named cells brought to life on top of what
/// lives there already: a cell is alive if it was alive or is named.
pub open spec fn seeded(cells: Seq<Seq<bool>>, coordinates: Seq<(usize, usize)>) -> Seq<Seq<bool>> {
    Seq::new(
        cells.len(),
        |x: int| Seq::new(cells[x].len(), |y: int| cells[x][y] || names(coordinates, x, y)),
    )
}

/// Seeding keeps the shape of the board.
pub proof fn lemma_seeded_is_board(
    cells: Seq<Seq<bool>>,
    coordinates: Seq<(usize, usize)>,
    x_size: int,
    y_size: int,
)
    requires
        is_board(cells, x_size, y_size),
    ensures
        is_board(seeded(cells, coordinates), x_size, y_size),
{
}

/// Seeding with one more coordinate at the end of the list is seeding with
/// the list and then bringing that one cell to life.
pub proof fn lemma_seeded_push(
    cells: Seq<Seq<bool>>,
    coordinates: Seq<(usize, usize)>,
    last: (usize, usize),
)
    requires
        last.0 < cells.len(),
        last.1 < cells[last.0 as int].len(),
    ensures
        seeded(cells, coordinates.push(last)) == seeded(cells, coordinates).update(
            last.0 as int,
            seeded(cells, coordinates)[last.0 as int].update(last.1 as int, true),
        ),
{
    let longer = coordinates.push(last);
    assert forall|x: int, y: int| names(longer, x, y) == (names(coordinates, x, y) || (last.0 == x
        && last.1 == y)) by {
        if names(coordinates, x, y) {
            let k = choose|k: int|
                0 <= k < coordinates.len() && (#[trigger] coordinates[k]).0 == x && coordinates[k].1
                    == y;
            assert(longer[k] == coordinates[k]);
        }
        if last.0 == x && last.1 == y {
            assert(longer[coordinates.len() as int] == last);
        }
        if names(longer, x, y) {
            let k = choose|k: int|
                0 <= k < longer.len() && (#[trigger] longer[k]).0 == x && longer[k].1 == y;
            if k < coordinates.len() {
                assert(coordinates[k] == longer[k]);
            }
        }
    }
    assert(seeded(cells, longer) =~~= seeded(cells, coordinates).update(
        last.0 as int,
        seeded(cells, coordinates)[last.0 as int].update(last.1 as int, true),
    ));
}

/// Seeding with no coordinates changes nothing.
pub proof fn lemma_seeded_empty(cells: Seq<Seq<bool>>)
    ensures
        seeded(cells, Seq::<(usize, usize)>::empty()) == cells,
{
    assert(seeded(cells, Seq::<(usize, usize)>::empty()) =~~= cells);
}

/// Seeding twice is seeding once with both lists: after the two, a cell is
/// alive exactly if it was alive before or is named in one of the lists.
pub proof fn lemma_seeded_twice(
    cells: Seq<Seq<bool>>,
    first: Seq<(usize, usize)>,
    second: Seq<(usize, usize)>,
)
    ensures
        seeded(seeded(cells, first), second) == seeded(cells, first + second),
        forall|x: int, y: int|
            0 <= x < cells.len() && 0 <= y < cells[x].len() ==> #[trigger] seeded(
                seeded(cells, first),
                second,
            )[x][y] == (cells[x][y] || names(first, x, y) || names(second, x, y)),
{
    lemma_names_concat(first, second);
    assert(seeded(seeded(cells, first), second) =~~= seeded(cells, first + second));
}

/// A cell is named in two lists put together exactly if it is named in one
/// of them.
pub proof fn lemma_names_concat(first: Seq<(usize, usize)>, second: Seq<(usize, usize)>)
    ensures
        forall|x: int, y: int| #[trigger]
            names(first + second, x, y) == (names(first, x, y) || names(second, x, y)),
{
    let both = first + second;
    assert forall|x: int, y: int| #[trigger]
        names(both, x, y) == (names(first, x, y) || names(second, x, y)) by {
        if names(first, x, y) {
            let k = choose|k: int|
                0 <= k < first.len() && (#[trigger] first[k]).0 == x && first[k].1 == y;
            assert(both[k] == first[k]);
        }
        if names(second, x, y) {
            let k = choose|k: int|
                0 <= k < second.len() && (#[trigger] second[k]).0 == x && second[k].1 == y;
            assert(both[first.len() + k] == second[k]);
        }
        if names(both, x, y) {
            let k = choose|k: int|
                0 <= k < both.len() && (#[trigger] both[k]).0 == x && both[k].1 == y;
            if k < first.len() {
                assert(first[k] == both[k]);
            } else {
                assert(second[k - first.len()] == both[k]);
            }
        }
    }
}

/// On a board that was blank, two seedings with lists that have no cell in
/// common leave alive the cells of both lists and no others, each named by
/// exactly one of the two.
pub proof fn lemma_seeded_disjoint_union(
    x_size: nat,
    y_size: nat,
    first: Seq<(usize, usize)>,
    second: Seq<(usize, usize)>,
)
    requires
        forall|x: int, y: int| !(names(first, x, y) && names(second, x, y)),
    ensures
        forall|x: int, y: int|
            0 <= x < x_size && 0 <= y < y_size ==> #[trigger] seeded(
                seeded(blank(x_size as int, y_size as int), first),
                second,
            )[x][y] == (names(first, x, y) != names(second, x, y)),
{
    lemma_seeded_twice(blank(x_size as int, y_size as int), first, second);
}

/// What lives after a seeding that starts from the blank board are the named
/// cells and no others, whatever lived before the board was cleared.
pub proof fn lemma_seeded_blank(x_size: nat, y_size: nat, coordinates: Seq<(usize, usize)>)
    ensures
        forall|x: int, y: int|
            0 <= x < x_size && 0 <= y < y_size ==> #[trigger] seeded(
                blank(x_size as int, y_size as int),
                coordinates,
            )[x][y] == names(coordinates, x, y),
{
}

/// Seeding on top of a fresh seeding: the cells of both lists live. Where
/// every cell of the first list is named in the second as well, the outcome
/// is that of a fresh seeding with the second list alone.
pub proof fn lemma_seeded_after_fresh(
    x_size: nat,
    y_size: nat,
    first: Seq<(usize, usize)>,
    second: Seq<(usize, usize)>,
)
    ensures
        forall|x: int, y: int|
            0 <= x < x_size && 0 <= y < y_size ==> #[trigger] seeded(
                seeded(blank(x_size as int, y_size as int), first),
                second,
            )[x][y] == (names(first, x, y) || names(second, x, y)),
        (forall|x: int, y: int| names(first, x, y) ==> names(second, x, y)) ==> seeded(
            seeded(blank(x_size as int, y_size as int), first),
            second,
        ) == seeded(blank(x_size as int, y_size as int), second),
{
    let fresh = blank(x_size as int, y_size as int);
    lemma_seeded_twice(fresh, first, second);
    if forall|x: int, y: int| names(first, x, y) ==> names(second, x, y) {
        assert(seeded(seeded(fresh, first), second) =~~= seeded(fresh, second));
    }
}

} // verus!
