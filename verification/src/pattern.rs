//! Which of its two colours a pattern shows in a cell of space.
//!
//! Stripes, rings and checkers cut space into cells that are numbered by
//! whole numbers: the stripe, the ring, or for checkers the sum of the three
//! cell coordinates. The colours alternate from one cell to the next.

use vstd::prelude::*;

verus! {

/// Whether the cell with this number shows the primary colour: the cells
/// with an even number do, cell 0 among them.
pub open spec fn primary(cell: int) -> bool {
    cell % 2 == 0
}

/// Whether the cell with this number shows the primary colour.
pub fn is_primary(cell: i32) -> (r: bool)
    ensures
        r == primary(cell as int),
{
    cell % 2 == 0
}

/// Neighbouring cells show different colours, below zero as above.
pub proof fn lemma_colours_alternate(cell: int)
    ensures
        primary(cell) != primary(cell + 1),
{
}

} // verus!
