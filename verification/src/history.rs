//! What a universe comes to after a list of operations.
//!
//! Each operation on a universe states the cells after it as a function of
//! the cells before it and of its arguments. `applied` collects those
//! functions under one name, which each operation's contract names too, and
//! `replayed` applies a list of operations in turn, so that what holds of
//! every run of a universe can be said and proved once.

use vstd::prelude::*;
use crate::cell::Cell;
use crate::grid::{addressable, index_of, lemma_index_in_grid, SIZE};
use crate::life::{blank, lemma_blank_stays_blank, next_generation};
use crate::patterns::{
    all_addressable, glider, lemma_toggled_each_by_hits, lemma_toggled_twice, pulsar, toggled,
    toggled_each, with_alive,
};
use crate::universe::{randomized, Universe};

verus! {

/// An operation that changes a universe, with its arguments.
pub enum Operation {
    /// `Universe::tick`.
    Tick,
    /// `Universe::clear`.
    Clear,
    /// `Universe::randomize` with these draws.
    Randomize { draws: Seq<u64> },
    /// `Universe::toggle_cell` at this address.
    ToggleCell { row: int, col: int },
    /// `Universe::set_cells` with these addresses.
    SetCells { cells: Seq<(int, int)> },
    /// `Universe::insert_glider_at` this anchor.
    InsertGlider { row: int, col: int },
    /// `Universe::insert_pulsar_at` this anchor.
    InsertPulsar { row: int, col: int },
}

/// The operation's arguments are ones that the universe accepts.
pub open spec fn accepted(operation: Operation) -> bool {
    match operation {
        Operation::Tick => true,
        Operation::Clear => true,
        Operation::Randomize { draws } => draws.len() == SIZE,
        Operation::ToggleCell { row, col } => addressable(row, col),
        Operation::SetCells { cells } => all_addressable(cells),
        Operation::InsertGlider { row, col } => addressable(row - 1, col - 1) && addressable(
            row + 1,
            col + 1,
        ),
        Operation::InsertPulsar { row, col } => addressable(row - 6, col - 6) && addressable(
            row + 6,
            col + 6,
        ),
    }
}

/// The cells after the operation, given the cells before it.
pub open spec fn applied(cells: Seq<Cell>, operation: Operation) -> Seq<Cell> {
    match operation {
        Operation::Tick => next_generation(cells),
        Operation::Clear => blank(),
        Operation::Randomize { draws } => randomized(draws),
        Operation::ToggleCell { row, col } => toggled(cells, index_of(row, col)),
        Operation::SetCells { cells: points } => with_alive(cells, points),
        Operation::InsertGlider { row, col } => toggled_each(cells, glider(row, col)),
        Operation::InsertPulsar { row, col } => toggled_each(cells, pulsar(row, col)),
    }
}

/// The cells after the operations, from the first to the last.
pub open spec fn replayed(cells: Seq<Cell>, operations: Seq<Operation>) -> Seq<Cell>
    decreases operations.len(),
{
    if operations.len() == 0 {
        cells
    } else {
        applied(replayed(cells, operations.drop_last()), operations.last())
    }
}

/// No operation changes the number of cells.
pub proof fn lemma_applied_keeps_size(cells: Seq<Cell>, operation: Operation)
    requires
        cells.len() == SIZE,
        accepted(operation),
    ensures
        applied(cells, operation).len() == SIZE,
{
    match operation {
        Operation::ToggleCell { row, col } => {
            lemma_index_in_grid(row, col);
        },
        Operation::InsertGlider { row, col } => {
            assert(all_addressable(glider(row, col)));
            lemma_toggled_each_by_hits(cells, glider(row, col));
        },
        Operation::InsertPulsar { row, col } => {
            assert(all_addressable(pulsar(row, col)));
            lemma_toggled_each_by_hits(cells, pulsar(row, col));
        },
        _ => {},
    }
}

/// Whatever is done to a universe, it has as many cells as the grid.
pub proof fn lemma_replayed_keeps_size(cells: Seq<Cell>, operations: Seq<Operation>)
    requires
        cells.len() == SIZE,
        forall|n: int| 0 <= n < operations.len() ==> accepted(#[trigger] operations[n]),
    ensures
        replayed(cells, operations).len() == SIZE,
    decreases operations.len(),
{
    if operations.len() > 0 {
        lemma_replayed_keeps_size(cells, operations.drop_last());
        lemma_applied_keeps_size(replayed(cells, operations.drop_last()), operations.last());
    }
}

/// A cleared universe stays clear: after `clear` and then `tick`, whatever
/// the universe held before, no cell is alive.
pub proof fn lemma_clear_then_tick(cells: Seq<Cell>)
    ensures
        applied(applied(cells, Operation::Clear), Operation::Tick) == blank(),
{
    lemma_blank_stays_blank();
}

/// Toggling the same cell twice in a row is doing nothing.
pub proof fn lemma_toggle_then_toggle(cells: Seq<Cell>, row: int, col: int)
    requires
        cells.len() == SIZE,
        addressable(row, col),
    ensures
        applied(
            applied(cells, (Operation::ToggleCell { row, col })),
            (Operation::ToggleCell { row, col }),
        ) == cells,
{
    lemma_toggled_twice(cells, row, col);
}

/// Two universes that show the same cells and go through the same operations
/// show the same cells after each of them. What a universe shows depends on
/// nothing but the cells it started with and the operations since: not on
/// what its second buffer holds, nor on which of the two buffers is the
/// current one.
pub proof fn lemma_same_operations_same_cells(
    first: Universe,
    second: Universe,
    operations: Seq<Operation>,
)
    requires
        first@ == second@,
    ensures
        forall|n: int|
            0 <= n <= operations.len() ==> replayed(first@, #[trigger] operations.take(n))
                == replayed(second@, operations.take(n)),
{
}

} // verus!
