//! The neighbours of every cell, worked out once.
//!
//! Which cells lie around a cell depends only on the shape of the grid, so the
//! eight indices can be kept in a table and looked up in each generation in
//! place of being found again from row and column: eight indices of memory
//! for each cell against eight wraparounds for each cell in each generation.
//! The table holds nothing that `grid::neighbors_of` would not compute. That
//! is its invariant, and it is never written to after it has been filled.

use vstd::prelude::*;
use crate::grid::{lemma_neighbor_in_grid, neighbor_of, neighbors_of, SIZE};

verus! {

/// The table has a row for each cell of the grid, and each row holds what
/// `grid::neighbor_of` gives for that cell, neighbour by neighbour.
pub open spec fn agrees_with_grid(table: Seq<[usize; 8]>) -> bool {
    &&& table.len() == SIZE
    &&& forall|index: int, k: int|
        0 <= index < SIZE && 0 <= k < 8 ==> (#[trigger] table[index][k]) == neighbor_of(index, k)
}

/// For each cell of the grid, the indices of its eight neighbours in compass
/// order.
pub struct NeighborIndex {
    table: Vec<[usize; 8]>,
}

impl View for NeighborIndex {
    type V = Seq<[usize; 8]>;

    closed spec fn view(&self) -> Seq<[usize; 8]> {
        self.table@
    }
}

impl NeighborIndex {
    #[verifier::type_invariant]
    spec fn filled(self) -> bool {
        agrees_with_grid(self.table@)
    }

    /// Fills the table for the whole grid.
    pub fn new() -> (index: NeighborIndex)
        ensures
            agrees_with_grid(index@),
    {
        let mut table: Vec<[usize; 8]> = Vec::new();
        let mut i: usize = 0;
        while i < SIZE
            invariant
                i <= SIZE,
                table@.len() == i,
                forall|index: int, k: int|
                    0 <= index < i && 0 <= k < 8 ==> (#[trigger] table@[index][k]) == neighbor_of(
                        index,
                        k,
                    ),
            decreases SIZE - i,
        {
            let around: [usize; 8] = neighbors_of(i);
            table.push(around);
            i = i + 1;
        }
        NeighborIndex { table }
    }

    /// The neighbours of the cell at `index`, read from the table. They are
    /// the ones that `grid::neighbors_of` finds from the cell's row and
    /// column, in the same order.
    pub fn neighbors(&self, index: usize) -> (around: &[usize; 8])
        requires
            index < SIZE,
        ensures
            *around == self@[index as int],
            forall|k: int| 0 <= k < 8 ==> around[k] == neighbor_of(index as int, k),
            forall|k: int| 0 <= k < 8 ==> around[k] < SIZE,
    {
        proof {
            use_type_invariant(self);
            assert forall|k: int| 0 <= k < 8 implies self.table@[index as int][k] < SIZE by {
                lemma_neighbor_in_grid(index as int, k);
            }
        }
        &self.table[index]
    }
}

} // verus!
