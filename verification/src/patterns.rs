//! What editing the grid by hand does to the sequence of cells: flipping one
//! cell, flipping the cells of a named shape, and setting listed cells alive.
//!
//! A shape is a list of steps from an anchor. Placing it flips the cell at
//! each step in turn, so a cell that two steps reach is flipped twice and
//! keeps its state, and placing a shape a second time takes it away again.

use vstd::prelude::*;
use crate::cell::{flipped, Cell};
use crate::grid::{
    addressable, index_of, lemma_index_in_grid, lemma_index_keeps_apart, HEIGHT, SIZE,
};

verus! {

/// `cells` with the cell at `index` flipped.
pub open spec fn toggled(cells: Seq<Cell>, index: int) -> Seq<Cell> {
    cells.update(index, flipped(cells[index]))
}

/// `cells` after the cell that each of `points` addresses has been flipped,
/// from the first point to the last.
pub open spec fn toggled_each(cells: Seq<Cell>, points: Seq<(int, int)>) -> Seq<Cell>
    decreases points.len(),
{
    if points.len() == 0 {
        cells
    } else {
        toggled(
            toggled_each(cells, points.drop_last()),
            index_of(points.last().0, points.last().1),
        )
    }
}

/// Every one of `points` is an address that the grid accepts.
pub open spec fn all_addressable(points: Seq<(int, int)>) -> bool {
    forall|k: int| 0 <= k < points.len() ==> addressable((#[trigger] points[k]).0, points[k].1)
}

/// The addresses that `steps` lead to from the anchor at `row` and `column`.
pub open spec fn placed(steps: Seq<(int, int)>, row: int, column: int) -> Seq<(int, int)> {
    Seq::new(steps.len(), |k: int| (row + steps[k].0, column + steps[k].1))
}

/// Pairs of machine integers as the pairs of integers that they stand for.
pub open spec fn widened(pairs: Seq<(i32, i32)>) -> Seq<(int, int)> {
    Seq::new(pairs.len(), |k: int| (pairs[k].0 as int, pairs[k].1 as int))
}

/// The five cells of a glider, as steps in rows and columns from its anchor.
pub open spec fn glider_steps() -> Seq<(int, int)> {
    seq![(-1, 0), (0, 1), (1, -1), (1, 0), (1, 1)]
}

/// The six cells of a pulsar from which the others follow by symmetry.
pub open spec fn pulsar_arms() -> Seq<(int, int)> {
    seq![(1, 2), (1, 3), (1, 4), (2, 6), (3, 6), (4, 6)]
}

/// The eight images of a step under the symmetries of the square: each choice
/// of the two signs, as it stands and with rows and columns exchanged.
pub open spec fn mirrored(step: (int, int)) -> Seq<(int, int)> {
    seq![
        (step.0, step.1),
        (step.0, -step.1),
        (-step.0, step.1),
        (-step.0, -step.1),
        (step.1, step.0),
        (step.1, -step.0),
        (-step.1, step.0),
        (-step.1, -step.0),
    ]
}

/// The forty-eight cells of a pulsar: the eight images of each arm, arm by
/// arm.
pub open spec fn pulsar_steps() -> Seq<(int, int)> {
    Seq::new(48, |k: int| mirrored(pulsar_arms()[k / 8])[k % 8])
}

/// The addresses of a glider anchored at `row` and `column`.
pub open spec fn glider(row: int, column: int) -> Seq<(int, int)> {
    placed(glider_steps(), row, column)
}

/// The addresses of a pulsar anchored at `row` and `column`.
pub open spec fn pulsar(row: int, column: int) -> Seq<(int, int)> {
    placed(pulsar_steps(), row, column)
}

/// One of `points` addresses the cell at `index`.
pub open spec fn listed(points: Seq<(int, int)>, index: int) -> bool {
    exists|k: int| 0 <= k < points.len() && index_of((#[trigger] points[k]).0, points[k].1) == index
}

/// No two of `points` address the same cell.
pub open spec fn distinct_cells(points: Seq<(int, int)>) -> bool {
    forall|i: int, j: int|
        0 <= i < j < points.len() ==> index_of((#[trigger] points[i]).0, points[i].1) != index_of(
            (#[trigger] points[j]).0,
            points[j].1,
        )
}

/// No two of `steps` are the same step.
pub open spec fn distinct_steps(steps: Seq<(int, int)>) -> bool {
    forall|i: int, j: int| 0 <= i < j < steps.len() ==> #[trigger] steps[i] != #[trigger] steps[j]
}

/// None of `steps` leads further than `reach` cells away in rows or in
/// columns.
pub open spec fn within_reach(steps: Seq<(int, int)>, reach: int) -> bool {
    forall|k: int|
        0 <= k < steps.len() ==> -reach <= (#[trigger] steps[k]).0 <= reach && -reach
            <= steps[k].1 <= reach
}

/// `cells` with every cell that one of `points` addresses alive, and the
/// others as they were.
pub open spec fn with_alive(cells: Seq<Cell>, points: Seq<(int, int)>) -> Seq<Cell> {
    Seq::new(
        cells.len(),
        |index: int|
            if listed(points, index) {
                Cell::Alive
            } else {
                cells[index]
            },
    )
}

/// How far a step leads, rows and columns taken together.
pub open spec fn span(step: (int, int)) -> int {
    (if step.0 < 0 {
        -step.0
    } else {
        step.0
    }) + (if step.1 < 0 {
        -step.1
    } else {
        step.1
    })
}

/// How many of `points` address the cell at `index`.
pub open spec fn hits(points: Seq<(int, int)>, index: int) -> nat
    decreases points.len(),
{
    if points.len() == 0 {
        0
    } else {
        let before = hits(points.drop_last(), index);
        if index_of(points.last().0, points.last().1) == index {
            before + 1
        } else {
            before
        }
    }
}

/// Flipping a cell twice restores it, and no other cell is touched on the
/// way.
pub proof fn lemma_toggled_twice(cells: Seq<Cell>, row: int, column: int)
    requires
        cells.len() == SIZE,
        addressable(row, column),
    ensures
        toggled(toggled(cells, index_of(row, column)), index_of(row, column)) == cells,
        forall|other: int|
            0 <= other < SIZE && other != index_of(row, column) ==> toggled(
                cells,
                index_of(row, column),
            )[other] == cells[other],
{
    lemma_index_in_grid(row, column);
    let index: int = index_of(row, column);
    assert(toggled(toggled(cells, index), index) =~= cells);
}

/// Flipping the cells of a list one more point along is flipping the cell of
/// that point after the others.
pub proof fn lemma_toggled_each_next(cells: Seq<Cell>, points: Seq<(int, int)>, n: int)
    requires
        0 <= n < points.len(),
    ensures
        toggled_each(cells, points.take(n + 1)) == toggled(
            toggled_each(cells, points.take(n)),
            index_of(points[n].0, points[n].1),
        ),
{
    assert(points.take(n + 1).drop_last() =~= points.take(n));
}

/// The cells that a list addresses one more point along are those that it
/// addressed before and the cell of that point.
pub proof fn lemma_listed_next(points: Seq<(int, int)>, n: int)
    requires
        0 <= n < points.len(),
    ensures
        forall|index: int|
            listed(points.take(n + 1), index) <==> listed(points.take(n), index) || index
                == index_of(points[n].0, points[n].1),
{
    let before = points.take(n);
    let now = points.take(n + 1);
    assert(now[n] == points[n]);
    assert forall|index: int| listed(now, index) <==> listed(before, index) || index == index_of(
        points[n].0,
        points[n].1,
    ) by {
        if listed(now, index) {
            let k: int = choose|k: int|
                0 <= k < now.len() && index_of((#[trigger] now[k]).0, now[k].1) == index;
            if k < n {
                assert(before[k] == now[k]);
            }
        }
        if listed(before, index) {
            let k: int = choose|k: int|
                0 <= k < before.len() && index_of((#[trigger] before[k]).0, before[k].1) == index;
            assert(now[k] == before[k]);
        }
    }
}

/// Flipping the cells of one list and then those of another is flipping the
/// cells of the two lists joined.
pub proof fn lemma_toggled_each_append(
    cells: Seq<Cell>,
    first: Seq<(int, int)>,
    second: Seq<(int, int)>,
)
    ensures
        toggled_each(cells, first + second) == toggled_each(toggled_each(cells, first), second),
    decreases second.len(),
{
    if second.len() == 0 {
        assert(first + second =~= first);
    } else {
        assert((first + second).drop_last() =~= first + second.drop_last());
        lemma_toggled_each_append(cells, first, second.drop_last());
    }
}

/// A cell that an odd number of the points address ends up flipped, and any
/// other cell ends up as it was: the order of the points does not matter.
pub proof fn lemma_toggled_each_by_hits(cells: Seq<Cell>, points: Seq<(int, int)>)
    requires
        cells.len() == SIZE,
        all_addressable(points),
    ensures
        toggled_each(cells, points).len() == SIZE,
        forall|index: int|
            0 <= index < SIZE ==> (#[trigger] toggled_each(cells, points)[index]) == if hits(
                points,
                index,
            ) % 2 == 1 {
                flipped(cells[index])
            } else {
                cells[index]
            },
    decreases points.len(),
{
    if points.len() > 0 {
        let before = points.drop_last();
        assert(all_addressable(before)) by {
            assert forall|k: int| 0 <= k < before.len() implies addressable(
                (#[trigger] before[k]).0,
                before[k].1,
            ) by {
                assert(before[k] == points[k]);
            }
        }
        lemma_toggled_each_by_hits(cells, before);
        assert(addressable(points[points.len() - 1].0, points[points.len() - 1].1));
        lemma_index_in_grid(points.last().0, points.last().1);
    }
}

/// Placing the same shape twice leaves the grid as it was.
pub proof fn lemma_toggled_each_twice(cells: Seq<Cell>, points: Seq<(int, int)>)
    requires
        cells.len() == SIZE,
        all_addressable(points),
    ensures
        toggled_each(toggled_each(cells, points), points) == cells,
{
    let once = toggled_each(cells, points);
    lemma_toggled_each_by_hits(cells, points);
    lemma_toggled_each_by_hits(once, points);
    assert(toggled_each(once, points) =~= cells);
}

/// Where no two points address the same cell, a cell is hit once if a point
/// addresses it and not at all if none does.
pub proof fn lemma_hits_of_distinct_cells(points: Seq<(int, int)>, index: int)
    requires
        distinct_cells(points),
    ensures
        hits(points, index) == if listed(points, index) {
            1nat
        } else {
            0nat
        },
    decreases points.len(),
{
    if points.len() > 0 {
        let before = points.drop_last();
        let last: int = points.len() - 1;
        assert forall|i: int, j: int| 0 <= i < j < before.len() implies index_of(
            (#[trigger] before[i]).0,
            before[i].1,
        ) != index_of((#[trigger] before[j]).0, before[j].1) by {
            assert(before[i] == points[i] && before[j] == points[j]);
        }
        lemma_hits_of_distinct_cells(before, index);
        if listed(before, index) {
            let k: int = choose|k: int|
                0 <= k < before.len() && index_of((#[trigger] before[k]).0, before[k].1) == index;
            assert(points[k] == before[k]);
            assert(index_of(points[k].0, points[k].1) != index_of(points[last].0, points[last].1));
        }
        if listed(points, index) {
            let k: int = choose|k: int|
                0 <= k < points.len() && index_of((#[trigger] points[k]).0, points[k].1) == index;
            if k < last {
                assert(before[k] == points[k]);
            }
        }
        if index_of(points[last].0, points[last].1) == index {
            assert(listed(points, index));
        }
    }
}

/// Where no two points address the same cell, flipping the cells of the list
/// flips each cell that a point addresses, once, and leaves the others.
pub proof fn lemma_toggled_each_of_distinct_cells(cells: Seq<Cell>, points: Seq<(int, int)>)
    requires
        cells.len() == SIZE,
        all_addressable(points),
        distinct_cells(points),
    ensures
        toggled_each(cells, points).len() == SIZE,
        forall|index: int|
            0 <= index < SIZE ==> (#[trigger] toggled_each(cells, points)[index]) == if listed(
                points,
                index,
            ) {
                flipped(cells[index])
            } else {
                cells[index]
            },
{
    lemma_toggled_each_by_hits(cells, points);
    assert forall|index: int| 0 <= index < SIZE implies (#[trigger] toggled_each(
        cells,
        points,
    )[index]) == if listed(points, index) {
        flipped(cells[index])
    } else {
        cells[index]
    } by {
        lemma_hits_of_distinct_cells(points, index);
    }
}

/// Steps that differ, and that reach less than half the grid, lead from any
/// anchor to cells that differ, even where the shape lies across an edge.
pub proof fn lemma_placed_cells_are_distinct(
    steps: Seq<(int, int)>,
    row: int,
    column: int,
    reach: int,
)
    requires
        distinct_steps(steps),
        within_reach(steps, reach),
        0 <= reach,
        2 * reach < HEIGHT,
        addressable(row - reach, column - reach),
        addressable(row + reach, column + reach),
    ensures
        all_addressable(placed(steps, row, column)),
        distinct_cells(placed(steps, row, column)),
{
    let points = placed(steps, row, column);
    assert forall|k: int| 0 <= k < points.len() implies addressable(
        (#[trigger] points[k]).0,
        points[k].1,
    ) by {
        assert(-reach <= steps[k].0 <= reach && -reach <= steps[k].1 <= reach);
    }
    assert forall|i: int, j: int| 0 <= i < j < points.len() implies index_of(
        (#[trigger] points[i]).0,
        points[i].1,
    ) != index_of((#[trigger] points[j]).0, points[j].1) by {
        assert(steps[i] != steps[j]);
        assert(-reach <= steps[i].0 <= reach && -reach <= steps[i].1 <= reach);
        assert(-reach <= steps[j].0 <= reach && -reach <= steps[j].1 <= reach);
        lemma_index_keeps_apart(points[i].0, points[i].1, points[j].0, points[j].1);
    }
}

/// The five steps of a glider differ, and none leads more than one cell from
/// the anchor.
pub proof fn lemma_glider_steps()
    ensures
        glider_steps().len() == 5,
        distinct_steps(glider_steps()),
        within_reach(glider_steps(), 1),
{
}

/// The eight images of a step that is neither on an axis nor on a diagonal
/// differ, and each is as far from the anchor as the step, rows and columns
/// taken together.
pub proof fn lemma_mirrored(step: (int, int))
    requires
        0 < step.0,
        0 < step.1,
        step.0 != step.1,
    ensures
        mirrored(step).len() == 8,
        distinct_steps(mirrored(step)),
        forall|m: int|
            0 <= m < 8 ==> span(#[trigger] mirrored(step)[m]) == step.0 + step.1,
{
}

/// The forty-eight steps of a pulsar differ, and none leads more than six
/// cells from the anchor: no step is there twice, so no cell of the pulsar is
/// flipped back by another.
pub proof fn lemma_pulsar_steps()
    ensures
        pulsar_steps().len() == 48,
        distinct_steps(pulsar_steps()),
        within_reach(pulsar_steps(), 6),
{
    let steps = pulsar_steps();
    let arms = pulsar_arms();
    assert forall|k: int| 0 <= k < 48 implies span(#[trigger] steps[k]) == span(arms[k / 8])
        && -6 <= steps[k].0 <= 6 && -6 <= steps[k].1 <= 6 by {
        lemma_mirrored(arms[k / 8]);
        assert(steps[k] == mirrored(arms[k / 8])[k % 8]);
    }
    assert forall|i: int, j: int| 0 <= i < j < 48 implies #[trigger] steps[i]
        != #[trigger] steps[j] by {
        if i / 8 == j / 8 {
            lemma_mirrored(arms[i / 8]);
            assert(steps[i] == mirrored(arms[i / 8])[i % 8]);
            assert(steps[j] == mirrored(arms[i / 8])[j % 8]);
        } else {
            assert(span(steps[i]) == span(arms[i / 8]));
            assert(span(steps[j]) == span(arms[j / 8]));
        }
    }
}

/// Inserting a glider flips five different cells and no others.
pub proof fn lemma_glider_flips_its_cells(cells: Seq<Cell>, row: int, column: int)
    requires
        cells.len() == SIZE,
        addressable(row - 1, column - 1),
        addressable(row + 1, column + 1),
    ensures
        glider(row, column).len() == 5,
        distinct_cells(glider(row, column)),
        forall|index: int|
            0 <= index < SIZE ==> (#[trigger] toggled_each(cells, glider(row, column))[index])
                == if listed(glider(row, column), index) {
                flipped(cells[index])
            } else {
                cells[index]
            },
{
    lemma_glider_steps();
    lemma_placed_cells_are_distinct(glider_steps(), row, column, 1);
    lemma_toggled_each_of_distinct_cells(cells, glider(row, column));
}

/// Inserting a pulsar flips forty-eight different cells and no others.
pub proof fn lemma_pulsar_flips_its_cells(cells: Seq<Cell>, row: int, column: int)
    requires
        cells.len() == SIZE,
        addressable(row - 6, column - 6),
        addressable(row + 6, column + 6),
    ensures
        pulsar(row, column).len() == 48,
        distinct_cells(pulsar(row, column)),
        forall|index: int|
            0 <= index < SIZE ==> (#[trigger] toggled_each(cells, pulsar(row, column))[index])
                == if listed(pulsar(row, column), index) {
                flipped(cells[index])
            } else {
                cells[index]
            },
{
    lemma_pulsar_steps();
    lemma_placed_cells_are_distinct(pulsar_steps(), row, column, 6);
    lemma_toggled_each_of_distinct_cells(cells, pulsar(row, column));
}

} // verus!
