//! One generation of the whole grid.
//!
//! The next generation is a function of the current one alone: each cell's
//! next state follows from its own state and from how many of its eight
//! neighbours are alive now. The step therefore reads one buffer and writes
//! another, and never a cell that it has already replaced.

use vstd::prelude::*;
use crate::cell::{next_state, Cell};
use crate::grid::{lemma_neighbor_in_grid, neighbor_of, SIZE};
use crate::neighbors::NeighborIndex;

verus! {

/// One if the cell at `index` is alive, else zero.
pub open spec fn live(cells: Seq<Cell>, index: int) -> int {
    if cells[index] == Cell::Alive {
        1
    } else {
        0
    }
}

/// How many of the first `k` neighbours of the cell at `index` are alive.
pub open spec fn live_among(cells: Seq<Cell>, index: int, k: int) -> int
    decreases k,
{
    if k <= 0 {
        0
    } else {
        live_among(cells, index, k - 1) + live(cells, neighbor_of(index, k - 1))
    }
}

/// How many of the eight neighbours of the cell at `index` are alive.
pub open spec fn live_neighbors(cells: Seq<Cell>, index: int) -> int {
    live_among(cells, index, 8)
}

/// The generation after `cells`.
pub open spec fn next_generation(cells: Seq<Cell>) -> Seq<Cell> {
    Seq::new(SIZE as nat, |index: int| next_state(cells[index], live_neighbors(cells, index)))
}

/// The grid with no live cell.
pub open spec fn blank() -> Seq<Cell> {
    Seq::new(SIZE as nat, |index: int| Cell::Dead)
}

/// Among the first `k` neighbours no more than `k` are alive.
proof fn lemma_live_among_bounds(cells: Seq<Cell>, index: int, k: int)
    requires
        0 <= k,
    ensures
        0 <= live_among(cells, index, k) <= k,
    decreases k,
{
    if k > 0 {
        lemma_live_among_bounds(cells, index, k - 1);
    }
}

/// A cell has at most eight live neighbours, whatever the grid holds.
pub proof fn lemma_live_neighbors_bounds(cells: Seq<Cell>, index: int)
    ensures
        0 <= live_neighbors(cells, index) <= 8,
{
    lemma_live_among_bounds(cells, index, 8);
}

/// Where the neighbours are all dead, the count is zero.
proof fn lemma_none_live_among(cells: Seq<Cell>, index: int, k: int)
    requires
        0 <= k <= 8,
        forall|j: int| 0 <= j < k ==> cells[#[trigger] neighbor_of(index, j)] == Cell::Dead,
    ensures
        live_among(cells, index, k) == 0,
    decreases k,
{
    if k > 0 {
        lemma_none_live_among(cells, index, k - 1);
    }
}

/// Nothing comes from nothing: the generation after the blank grid is the
/// blank grid.
pub proof fn lemma_blank_stays_blank()
    ensures
        next_generation(blank()) == blank(),
{
    assert forall|index: int| 0 <= index < SIZE implies next_generation(blank())[index]
        == Cell::Dead by {
        assert forall|j: int| 0 <= j < 8 implies blank()[#[trigger] neighbor_of(index, j)]
            == Cell::Dead by {
            lemma_neighbor_in_grid(index, j);
        }
        lemma_none_live_among(blank(), index, 8);
    }
    assert(next_generation(blank()) =~= blank());
}

/// Counts the live cells among the eight neighbours of the cell at `index`.
pub fn count_live_neighbors(
    cells: &[Cell; SIZE],
    neighbors: &NeighborIndex,
    index: usize,
) -> (count: usize)
    requires
        index < SIZE,
    ensures
        count == live_neighbors(cells@, index as int),
        count <= 8,
{
    let around = neighbors.neighbors(index);
    let mut count: usize = 0;
    let mut k: usize = 0;
    while k < 8
        invariant
            k <= 8,
            count == live_among(cells@, index as int, k as int),
            count <= k,
            forall|j: int| 0 <= j < 8 ==> around[j] == neighbor_of(index as int, j),
            forall|j: int| 0 <= j < 8 ==> around[j] < SIZE,
        decreases 8 - k,
    {
        if cells[around[k]] == Cell::Alive {
            count = count + 1;
        }
        k = k + 1;
    }
    count
}

/// Writes the generation after `current` into `next`, whatever `next` held.
pub fn advance(current: &[Cell; SIZE], next: &mut [Cell; SIZE], neighbors: &NeighborIndex)
    ensures
        final(next)@ == next_generation(current@),
{
    let mut i: usize = 0;
    while i < SIZE
        invariant
            i <= SIZE,
            forall|j: int|
                0 <= j < i ==> next@[j] == next_state(
                    current@[j],
                    #[trigger] live_neighbors(current@, j),
                ),
        decreases SIZE - i,
    {
        let live_neighbors: usize = count_live_neighbors(current, neighbors, i);
        next[i] = current[i].tick(live_neighbors);
        i = i + 1;
    }
    assert(next@ =~= next_generation(current@));
}

} // verus!
