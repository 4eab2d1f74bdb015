//! One generation after another, as mathematics: how a board of cells
//! follows from the board before it.

use vstd::prelude::*;
use crate::board::{blank, is_board};
use crate::rule::lives_on;
use crate::topology::{is_direction, lemma_wrap_step, wrap};

verus! {

/// The number of columns of `cells`.
pub open spec fn width(cells: Seq<Seq<bool>>) -> int {
    cells.len() as int
}

/// The number of rows of `cells`, read off its first column; a board
/// without columns has no rows.
pub open spec fn height(cells: Seq<Seq<bool>>) -> int {
    if cells.len() == 0 {
        0
    } else {
        cells[0].len() as int
    }
}

/// `1` if the neighbour of `(x, y)` that lies `dx` columns and `dy` rows
/// away on the torus is alive, `0` if it is dead.
pub open spec fn neighbor_count(cells: Seq<Seq<bool>>, x: int, y: int, dx: int, dy: int) -> int {
    if cells[wrap(x + dx, width(cells))][wrap(y + dy, height(cells))] {
        1
    } else {
        0
    }
}

/// How many of the eight neighbours of `(x, y)` are alive. A cell that is a
/// neighbour in several directions, as happens on boards narrower or lower
/// than three cells, counts once for each direction.
pub open spec fn live_neighbors(cells: Seq<Seq<bool>>, x: int, y: int) -> int {
    neighbor_count(cells, x, y, -1, -1) + neighbor_count(cells, x, y, 0, -1) + neighbor_count(
        cells,
        x,
        y,
        1,
        -1,
    ) + neighbor_count(cells, x, y, -1, 0) + neighbor_count(cells, x, y, 1, 0) + neighbor_count(
        cells,
        x,
        y,
        -1,
        1,
    ) + neighbor_count(cells, x, y, 0, 1) + neighbor_count(cells, x, y, 1, 1)
}

/// Whether the cell `(x, y)` is alive in the generation after `cells`.
pub open spec fn next_cell(cells: Seq<Seq<bool>>, x: int, y: int) -> bool {
    lives_on(cells[x][y], live_neighbors(cells, x, y))
}

/// The generation after `cells`: a board of the same shape on which every
/// cell is what the rule makes of it and its neighbours in `cells`.
pub open spec fn next_generation(cells: Seq<Seq<bool>>) -> Seq<Seq<bool>> {
    Seq::new(cells.len(), |x: int| Seq::new(cells[x].len(), |y: int| next_cell(cells, x, y)))
}

/// The board `steps` generations after `cells`.
pub open spec fn generations(cells: Seq<Seq<bool>>, steps: nat) -> Seq<Seq<bool>>
    decreases steps,
{
    if steps == 0 {
        cells
    } else {
        next_generation(generations(cells, (steps - 1) as nat))
    }
}

/// A generation keeps the shape of the board.
pub proof fn lemma_next_generation_is_board(cells: Seq<Seq<bool>>, x_size: int, y_size: int)
    requires
        is_board(cells, x_size, y_size),
    ensures
        is_board(next_generation(cells), x_size, y_size),
{
}

/// Any number of generations keeps the shape of the board.
pub proof fn lemma_generations_is_board(
    cells: Seq<Seq<bool>>,
    x_size: int,
    y_size: int,
    steps: nat,
)
    requires
        is_board(cells, x_size, y_size),
    ensures
        is_board(generations(cells, steps), x_size, y_size),
    decreases steps,
{
    if steps > 0 {
        lemma_generations_is_board(cells, x_size, y_size, (steps - 1) as nat);
        lemma_next_generation_is_board(
            generations(cells, (steps - 1) as nat),
            x_size,
            y_size,
        );
    }
}

/// On a board where nothing lives nothing is born: the generation after the
/// blank board is the blank board.
pub proof fn lemma_blank_stays_blank(x_size: nat, y_size: nat)
    ensures
        next_generation(blank(x_size as int, y_size as int)) == blank(x_size as int, y_size as int),
{
    let dead = blank(x_size as int, y_size as int);
    assert forall|x: int, y: int| 0 <= x < x_size && 0 <= y < y_size implies !next_cell(
        dead,
        x,
        y,
    ) by {
        lemma_wrap_step(x, x_size as int);
        lemma_wrap_step(y, y_size as int);
        assert(width(dead) == x_size);
        assert(height(dead) == y_size);
        assert(live_neighbors(dead, x, y) == 0);
    }
    assert(next_generation(dead) =~~= dead);
}

/// The blank board is absorbing: after any number of generations it is
/// still blank.
pub proof fn lemma_blank_forever(x_size: nat, y_size: nat, steps: nat)
    ensures
        generations(blank(x_size as int, y_size as int), steps) == blank(
            x_size as int,
            y_size as int,
        ),
    decreases steps,
{
    if steps > 0 {
        lemma_blank_forever(x_size, y_size, (steps - 1) as nat);
        lemma_blank_stays_blank(x_size, y_size);
    }
}

/// A cell never has fewer than no live neighbours nor more than eight.
pub proof fn lemma_live_neighbors_bounds(cells: Seq<Seq<bool>>, x: int, y: int)
    ensures
        0 <= live_neighbors(cells, x, y) <= 8,
{
}

/// A live cell counts for each of its neighbours: if the neighbour of
/// `(x, y)` in some direction is alive, then `(x, y)` has at least one live
/// neighbour. The neighbour is found across the edges of the board as well
/// as inside it.
pub proof fn lemma_live_neighbor_is_counted(
    cells: Seq<Seq<bool>>,
    x: int,
    y: int,
    dx: int,
    dy: int,
)
    requires
        is_direction(dx, dy),
        cells[wrap(x + dx, width(cells))][wrap(y + dy, height(cells))],
    ensures
        live_neighbors(cells, x, y) >= 1,
{
    assert(neighbor_count(cells, x, y, dx, dy) == 1);
}

/// Opposite corners of a board are neighbours: a live cell at `(0, 0)` is
/// counted among the neighbours of the last cell of the last column, and a
/// live cell there among the neighbours of `(0, 0)`; likewise for the other
/// two corners.
pub proof fn lemma_corners_are_neighbors(cells: Seq<Seq<bool>>, x_size: int, y_size: int)
    requires
        is_board(cells, x_size, y_size),
        x_size > 0,
        y_size > 0,
    ensures
        cells[0][0] ==> live_neighbors(cells, x_size - 1, y_size - 1) >= 1,
        cells[x_size - 1][y_size - 1] ==> live_neighbors(cells, 0, 0) >= 1,
        cells[0][y_size - 1] ==> live_neighbors(cells, x_size - 1, 0) >= 1,
        cells[x_size - 1][0] ==> live_neighbors(cells, 0, y_size - 1) >= 1,
{
    assert(width(cells) == x_size);
    assert(height(cells) == y_size);
    lemma_wrap_step(0, x_size);
    lemma_wrap_step(0, y_size);
    lemma_wrap_step(x_size - 1, x_size);
    lemma_wrap_step(y_size - 1, y_size);
    if cells[0][0] {
        lemma_live_neighbor_is_counted(cells, x_size - 1, y_size - 1, 1, 1);
    }
    if cells[x_size - 1][y_size - 1] {
        lemma_live_neighbor_is_counted(cells, 0, 0, -1, -1);
    }
    if cells[0][y_size - 1] {
        lemma_live_neighbor_is_counted(cells, x_size - 1, 0, 1, -1);
    }
    if cells[x_size - 1][0] {
        lemma_live_neighbor_is_counted(cells, 0, y_size - 1, -1, 1);
    }
}

/// Opposite edges of a board are neighbours: a live cell in the first
/// column is counted among the neighbours of the cell of the same row in
/// the last column, and the other way round; likewise for the first and the
/// last row.
pub proof fn lemma_edges_are_neighbors(
    cells: Seq<Seq<bool>>,
    x_size: int,
    y_size: int,
    x: int,
    y: int,
)
    requires
        is_board(cells, x_size, y_size),
        0 <= x < x_size,
        0 <= y < y_size,
    ensures
        cells[0][y] ==> live_neighbors(cells, x_size - 1, y) >= 1,
        cells[x_size - 1][y] ==> live_neighbors(cells, 0, y) >= 1,
        cells[x][0] ==> live_neighbors(cells, x, y_size - 1) >= 1,
        cells[x][y_size - 1] ==> live_neighbors(cells, x, 0) >= 1,
{
    assert(width(cells) == x_size);
    assert(height(cells) == y_size);
    lemma_wrap_step(x, x_size);
    lemma_wrap_step(y, y_size);
    lemma_wrap_step(0, x_size);
    lemma_wrap_step(0, y_size);
    lemma_wrap_step(x_size - 1, x_size);
    lemma_wrap_step(y_size - 1, y_size);
    if cells[0][y] {
        lemma_live_neighbor_is_counted(cells, x_size - 1, y, 1, 0);
    }
    if cells[x_size - 1][y] {
        lemma_live_neighbor_is_counted(cells, 0, y, -1, 0);
    }
    if cells[x][0] {
        lemma_live_neighbor_is_counted(cells, x, y_size - 1, 0, 1);
    }
    if cells[x][y_size - 1] {
        lemma_live_neighbor_is_counted(cells, x, 0, 0, -1);
    }
}

} // verus!
