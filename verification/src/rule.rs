//! The life-and-death rule for a single cell.

use vstd::prelude::*;

verus! {

/// Whether a cell is alive in the next generation, given whether it is alive
/// now and how many of its eight neighbours are alive: a live cell survives
/// with two or three live neighbours, a dead cell is born with exactly three.
pub open spec fn lives_on(alive: bool, live_neighbors: int) -> bool {
    if alive {
        live_neighbors == 2 || live_neighbors == 3
    } else {
        live_neighbors == 3
    }
}

/// The rule as a table: a live cell with two or three live neighbours
/// lives, a dead cell with three is born, and in every other case the cell
/// is dead in the next generation.
pub proof fn lemma_rule_table()
    ensures
        lives_on(true, 2),
        lives_on(true, 3),
        lives_on(false, 3),
        forall|n: int| n != 2 && n != 3 ==> !#[trigger] lives_on(true, n),
        forall|n: int| n != 3 ==> !#[trigger] lives_on(false, n),
{
}

} // verus!
