//! Coordinates on a torus: the extents of a board and the eight neighbours
//! of a cell, with both axes wrapping around.

use vstd::prelude::*;
use vstd::arithmetic::div_mod::lemma_fundamental_div_mod_converse;

verus! {

/// The position `i` brought back onto an axis of `extent` cells that closes
/// on itself.
pub open spec fn wrap(i: int, extent: int) -> int {
    i % extent
}

/// One step back or forth from a position on the axis, spelled out: stepping
/// back from `0` lands on `extent - 1`, stepping forth from `extent - 1`
/// lands on `0`, and every other step is an ordinary one.
pub proof fn lemma_wrap_step(i: int, extent: int)
    requires
        0 <= i < extent,
    ensures
        wrap(i, extent) == i,
        wrap(i - 1, extent) == (if i == 0 { extent - 1 } else { i - 1 }),
        wrap(i + 1, extent) == (if i == extent - 1 { 0 } else { i + 1 }),
{
    lemma_fundamental_div_mod_converse(i, extent, 0, i);
    if i == 0 {
        lemma_fundamental_div_mod_converse(i - 1, extent, -1, extent - 1);
    } else {
        lemma_fundamental_div_mod_converse(i - 1, extent, 0, i - 1);
    }
    if i == extent - 1 {
        lemma_fundamental_div_mod_converse(i + 1, extent, 1, 0);
    } else {
        lemma_fundamental_div_mod_converse(i + 1, extent, 0, i + 1);
    }
}

/// The extents of a board: `x_size` columns by `y_size` rows.
///
/// An extent of zero is allowed and describes a board without cells. No
/// coordinate lies on such a board, so none of the neighbour functions can
/// be called for it.
#[derive(Clone, Copy, Debug)]
pub struct BoardSize {
    pub x_size: usize,
    pub y_size: usize,
}

impl BoardSize {
    /// Whether `(x, y)` is a cell of the board.
    pub open spec fn contains(&self, x: int, y: int) -> bool {
        0 <= x < self.x_size && 0 <= y < self.y_size
    }

    /// The cell reached from `(x, y)` by `dx` columns and `dy` rows on the
    /// torus.
    pub open spec fn neighbor(&self, x: int, y: int, dx: int, dy: int) -> (int, int) {
        (wrap(x + dx, self.x_size as int), wrap(y + dy, self.y_size as int))
    }

    /// The neighbour of `(x, y)` one column back and one row up.
    pub fn top_left(&self, x: usize, y: usize) -> (r: (usize, usize))
        requires
            self.contains(x as int, y as int),
        ensures
            self.contains(r.0 as int, r.1 as int),
            (r.0 as int, r.1 as int) == self.neighbor(x as int, y as int, -1, -1),
    {
        proof {
            lemma_wrap_step(x as int, self.x_size as int);
            lemma_wrap_step(y as int, self.y_size as int);
        }
        (
            if x == 0 { self.x_size - 1 } else { x - 1 },
            if y == 0 { self.y_size - 1 } else { y - 1 },
        )
    }

    /// The neighbour of `(x, y)` one row up.
    pub fn top(&self, x: usize, y: usize) -> (r: (usize, usize))
        requires
            self.contains(x as int, y as int),
        ensures
            self.contains(r.0 as int, r.1 as int),
            (r.0 as int, r.1 as int) == self.neighbor(x as int, y as int, 0, -1),
    {
        proof {
            lemma_wrap_step(x as int, self.x_size as int);
            lemma_wrap_step(y as int, self.y_size as int);
        }
        (x, if y == 0 { self.y_size - 1 } else { y - 1 })
    }

    /// The neighbour of `(x, y)` one column forth and one row up.
    pub fn top_right(&self, x: usize, y: usize) -> (r: (usize, usize))
        requires
            self.contains(x as int, y as int),
        ensures
            self.contains(r.0 as int, r.1 as int),
            (r.0 as int, r.1 as int) == self.neighbor(x as int, y as int, 1, -1),
    {
        proof {
            lemma_wrap_step(x as int, self.x_size as int);
            lemma_wrap_step(y as int, self.y_size as int);
        }
        (
            if x == self.x_size - 1 { 0 } else { x + 1 },
            if y == 0 { self.y_size - 1 } else { y - 1 },
        )
    }

    /// The neighbour of `(x, y)` one column back.
    pub fn left(&self, x: usize, y: usize) -> (r: (usize, usize))
        requires
            self.contains(x as int, y as int),
        ensures
            self.contains(r.0 as int, r.1 as int),
            (r.0 as int, r.1 as int) == self.neighbor(x as int, y as int, -1, 0),
    {
        proof {
            lemma_wrap_step(x as int, self.x_size as int);
            lemma_wrap_step(y as int, self.y_size as int);
        }
        (if x == 0 { self.x_size - 1 } else { x - 1 }, y)
    }

    /// The neighbour of `(x, y)` one column forth.
    pub fn right(&self, x: usize, y: usize) -> (r: (usize, usize))
        requires
            self.contains(x as int, y as int),
        ensures
            self.contains(r.0 as int, r.1 as int),
            (r.0 as int, r.1 as int) == self.neighbor(x as int, y as int, 1, 0),
    {
        proof {
            lemma_wrap_step(x as int, self.x_size as int);
            lemma_wrap_step(y as int, self.y_size as int);
        }
        (if x == self.x_size - 1 { 0 } else { x + 1 }, y)
    }

    /// The neighbour of `(x, y)` one column back and one row down.
    pub fn bottom_left(&self, x: usize, y: usize) -> (r: (usize, usize))
        requires
            self.contains(x as int, y as int),
        ensures
            self.contains(r.0 as int, r.1 as int),
            (r.0 as int, r.1 as int) == self.neighbor(x as int, y as int, -1, 1),
    {
        proof {
            lemma_wrap_step(x as int, self.x_size as int);
            lemma_wrap_step(y as int, self.y_size as int);
        }
        (
            if x == 0 { self.x_size - 1 } else { x - 1 },
            if y == self.y_size - 1 { 0 } else { y + 1 },
        )
    }

    /// The neighbour of `(x, y)` one row down.
    pub fn bottom(&self, x: usize, y: usize) -> (r: (usize, usize))
        requires
            self.contains(x as int, y as int),
        ensures
            self.contains(r.0 as int, r.1 as int),
            (r.0 as int, r.1 as int) == self.neighbor(x as int, y as int, 0, 1),
    {
        proof {
            lemma_wrap_step(x as int, self.x_size as int);
            lemma_wrap_step(y as int, self.y_size as int);
        }
        (x, if y == self.y_size - 1 { 0 } else { y + 1 })
    }

    /// The neighbour of `(x, y)` one column forth and one row down.
    pub fn bottom_right(&self, x: usize, y: usize) -> (r: (usize, usize))
        requires
            self.contains(x as int, y as int),
        ensures
            self.contains(r.0 as int, r.1 as int),
            (r.0 as int, r.1 as int) == self.neighbor(x as int, y as int, 1, 1),
    {
        proof {
            lemma_wrap_step(x as int, self.x_size as int);
            lemma_wrap_step(y as int, self.y_size as int);
        }
        (
            if x == self.x_size - 1 { 0 } else { x + 1 },
            if y == self.y_size - 1 { 0 } else { y + 1 },
        )
    }
}

/// Whether `(dx, dy)` is one of the eight steps from a cell to a neighbour.
pub open spec fn is_direction(dx: int, dy: int) -> bool {
    &&& -1 <= dx <= 1
    &&& -1 <= dy <= 1
    &&& !(dx == 0 && dy == 0)
}

/// Every neighbour of a cell of the board is a cell of the board.
pub proof fn lemma_neighbor_on_board(size: BoardSize, x: int, y: int, dx: int, dy: int)
    requires
        size.contains(x, y),
        -1 <= dx <= 1,
        -1 <= dy <= 1,
    ensures
        size.contains(size.neighbor(x, y, dx, dy).0, size.neighbor(x, y, dx, dy).1),
{
    lemma_wrap_step(x, size.x_size as int);
    lemma_wrap_step(y, size.y_size as int);
}

/// Being neighbours is mutual: the step back from a neighbour, in the
/// opposite direction, ends where the step forth began, across the edges of
/// the board as well as inside it.
pub proof fn lemma_neighbor_mutual(size: BoardSize, x: int, y: int, dx: int, dy: int)
    requires
        size.contains(x, y),
        -1 <= dx <= 1,
        -1 <= dy <= 1,
    ensures
        size.neighbor(size.neighbor(x, y, dx, dy).0, size.neighbor(x, y, dx, dy).1, -dx, -dy) == (
            x,
            y,
        ),
{
    lemma_wrap_step(x, size.x_size as int);
    lemma_wrap_step(y, size.y_size as int);
    let (nx, ny) = size.neighbor(x, y, dx, dy);
    lemma_wrap_step(nx, size.x_size as int);
    lemma_wrap_step(ny, size.y_size as int);
}

/// The four corners of a board meet: each corner is the diagonal neighbour
/// of the opposite one.
pub proof fn lemma_corners_meet(size: BoardSize)
    requires
        size.x_size > 0,
        size.y_size > 0,
    ensures
        size.neighbor(0, 0, -1, -1) == (size.x_size - 1, size.y_size - 1),
        size.neighbor(size.x_size - 1, size.y_size - 1, 1, 1) == (0int, 0int),
        size.neighbor(size.x_size - 1, 0, 1, -1) == (0int, size.y_size - 1),
        size.neighbor(0, size.y_size - 1, -1, 1) == (size.x_size - 1, 0int),
{
    lemma_wrap_step(0, size.x_size as int);
    lemma_wrap_step(0, size.y_size as int);
    lemma_wrap_step(size.x_size - 1, size.x_size as int);
    lemma_wrap_step(size.y_size - 1, size.y_size as int);
}

/// Opposite edges of a board meet: the first and the last column are
/// neighbours in every row, the first and the last row in every column.
pub proof fn lemma_edges_meet(size: BoardSize, x: int, y: int)
    requires
        size.contains(x, y),
    ensures
        size.neighbor(0, y, -1, 0) == (size.x_size - 1, y),
        size.neighbor(size.x_size - 1, y, 1, 0) == (0int, y),
        size.neighbor(x, 0, 0, -1) == (x, size.y_size - 1),
        size.neighbor(x, size.y_size - 1, 0, 1) == (x, 0int),
{
    lemma_wrap_step(x, size.x_size as int);
    lemma_wrap_step(y, size.y_size as int);
    lemma_wrap_step(0, size.x_size as int);
    lemma_wrap_step(0, size.y_size as int);
    lemma_wrap_step(size.x_size - 1, size.x_size as int);
    lemma_wrap_step(size.y_size - 1, size.y_size as int);
}

} // verus!
