//! The shape of the grid and how a row and a column address a cell of it.
//!
//! The grid has `HEIGHT` rows of `WIDTH` cells, stored row by row. It is a
//! torus: the row above the first is the last, and the column left of the
//! first is the last. An address may therefore lie up to one full turn outside
//! the grid on either side, and is brought back by adding or subtracting the
//! dimension once. The dimensions are fixed when the crate is compiled, so
//! that no operation has to carry or check them.

use vstd::prelude::*;

verus! {

/// Cells in a row.
pub const WIDTH: i32 = 128;

/// Rows in the grid.
pub const HEIGHT: i32 = 80;

/// Cells in the grid: `WIDTH` times `HEIGHT`.
pub const SIZE: usize = 10240;

/// `x` brought into `0..n` by at most one step of `n`.
pub open spec fn wrap(x: int, n: int) -> int {
    if x < 0 {
        x + n
    } else if x >= n {
        x - n
    } else {
        x
    }
}

/// `x` is in `0..n` or at most one full turn below or above it.
pub open spec fn within_one_turn(x: int, n: int) -> bool {
    -n <= x < 2 * n
}

/// The addresses that the grid accepts: row and column each within one turn
/// of the grid.
pub open spec fn addressable(row: int, column: int) -> bool {
    within_one_turn(row, HEIGHT as int) && within_one_turn(column, WIDTH as int)
}

/// The place in the row-major sequence of cells that `row` and `column`
/// address.
pub open spec fn index_of(row: int, column: int) -> int {
    wrap(row, HEIGHT as int) * WIDTH + wrap(column, WIDTH as int)
}

/// The row of the cell at `index`.
pub open spec fn row_of(index: int) -> int {
    index / (WIDTH as int)
}

/// The column of the cell at `index`.
pub open spec fn column_of(index: int) -> int {
    index % (WIDTH as int)
}

/// The step in rows and columns to the `k`-th neighbour, in compass order:
/// north, north-east, east, south-east, south, south-west, west, north-west.
/// North is the row above, east the column to the right.
pub open spec fn compass(k: int) -> (int, int) {
    if k == 0 {
        (-1, 0)
    } else if k == 1 {
        (-1, 1)
    } else if k == 2 {
        (0, 1)
    } else if k == 3 {
        (1, 1)
    } else if k == 4 {
        (1, 0)
    } else if k == 5 {
        (1, -1)
    } else if k == 6 {
        (0, -1)
    } else {
        (-1, -1)
    }
}

/// The index of the `k`-th neighbour of the cell at `index`, found from the
/// cell's row and column by one compass step and the wraparound.
pub open spec fn neighbor_of(index: int, k: int) -> int {
    index_of(row_of(index) + compass(k).0, column_of(index) + compass(k).1)
}

/// Within one turn, wrapping is taking the remainder: the one step that
/// `wrap` takes is all that the remainder would take.
pub proof fn lemma_wrap_is_remainder(x: int, n: int)
    requires
        n > 0,
        within_one_turn(x, n),
    ensures
        0 <= wrap(x, n) < n,
        wrap(x, n) == x % n,
{
    if x < 0 {
        assert((x + n) % n == x % n) by (nonlinear_arith)
            requires
                n > 0,
        ;
        assert((x + n) % n == x + n) by (nonlinear_arith)
            requires
                0 <= x + n < n,
        ;
    } else if x >= n {
        assert((x - n) % n == x % n) by (nonlinear_arith)
            requires
                n > 0,
        ;
        assert((x - n) % n == x - n) by (nonlinear_arith)
            requires
                0 <= x - n < n,
        ;
    } else {
        assert(x % n == x) by (nonlinear_arith)
            requires
                0 <= x < n,
        ;
    }
}

/// Two different numbers less than a full turn apart stay different when
/// they are wrapped.
pub proof fn lemma_wrap_keeps_apart(x: int, y: int, n: int)
    requires
        n > 0,
        within_one_turn(x, n),
        within_one_turn(y, n),
        x != y,
        -n < x - y < n,
    ensures
        wrap(x, n) != wrap(y, n),
{
}

/// Two different addresses that are less than a full turn apart in rows and
/// in columns lead to different cells.
pub proof fn lemma_index_keeps_apart(row: int, column: int, other_row: int, other_column: int)
    requires
        addressable(row, column),
        addressable(other_row, other_column),
        row != other_row || column != other_column,
        -HEIGHT < row - other_row < HEIGHT,
        -WIDTH < column - other_column < WIDTH,
    ensures
        index_of(row, column) != index_of(other_row, other_column),
{
    if row != other_row {
        lemma_wrap_keeps_apart(row, other_row, HEIGHT as int);
    }
    if column != other_column {
        lemma_wrap_keeps_apart(column, other_column, WIDTH as int);
    }
    if index_of(row, column) == index_of(other_row, other_column) {
        lemma_index_of_is_one_to_one(
            wrap(row, HEIGHT as int),
            wrap(column, WIDTH as int),
            wrap(other_row, HEIGHT as int),
            wrap(other_column, WIDTH as int),
        );
    }
}

/// Every accepted address, inside the grid or up to one turn outside it,
/// leads to a cell of the grid.
pub proof fn lemma_index_in_grid(row: int, column: int)
    requires
        addressable(row, column),
    ensures
        0 <= index_of(row, column) < SIZE,
{
}

/// A full turn of rows leads back to the same cell, as long as the address
/// after the turn is still one that the grid accepts.
pub proof fn lemma_index_row_turn(row: int, column: int)
    requires
        -HEIGHT <= row < HEIGHT,
    ensures
        index_of(row + HEIGHT, column) == index_of(row, column),
{
}

/// A full turn of columns leads back to the same cell, as long as the address
/// after the turn is still one that the grid accepts.
pub proof fn lemma_index_column_turn(row: int, column: int)
    requires
        -WIDTH <= column < WIDTH,
    ensures
        index_of(row, column + WIDTH) == index_of(row, column),
{
}

/// The row and the column of a cell lie in the grid and address that cell.
pub proof fn lemma_index_of_row_and_column(index: int)
    requires
        0 <= index < SIZE,
    ensures
        0 <= row_of(index) < HEIGHT,
        0 <= column_of(index) < WIDTH,
        index_of(row_of(index), column_of(index)) == index,
{
}

/// Inside the grid, the index determines row and column: two addresses in the
/// grid that lead to the same cell are the same address.
pub proof fn lemma_index_of_is_one_to_one(row: int, column: int, other_row: int, other_column: int)
    requires
        0 <= row < HEIGHT,
        0 <= column < WIDTH,
        0 <= other_row < HEIGHT,
        0 <= other_column < WIDTH,
        index_of(row, column) == index_of(other_row, other_column),
    ensures
        row == other_row,
        column == other_column,
{
}

/// Every neighbour of a cell of the grid is a cell of the grid.
pub proof fn lemma_neighbor_in_grid(index: int, k: int)
    requires
        0 <= index < SIZE,
    ensures
        0 <= neighbor_of(index, k) < SIZE,
{
    lemma_index_of_row_and_column(index);
    lemma_index_in_grid(row_of(index) + compass(k).0, column_of(index) + compass(k).1);
}

/// Whether the grid accepts the address: whether row and column are each
/// within one turn of the grid.
pub fn accepts(row: i32, column: i32) -> (accepted: bool)
    ensures
        accepted == addressable(row as int, column as int),
{
    -HEIGHT <= row && row < 2 * HEIGHT && -WIDTH <= column && column < 2 * WIDTH
}

/// Brings an address within one turn of the grid to the index of its cell.
pub fn get_index(row: i32, column: i32) -> (index: usize)
    requires
        addressable(row as int, column as int),
    ensures
        index == index_of(row as int, column as int),
        index < SIZE,
{
    let width: i32 = WIDTH;
    let height: i32 = HEIGHT;

    let row: i32 = if row < 0 {
        row + height
    } else if row >= height {
        row - height
    } else {
        row
    };
    let column: i32 = if column < 0 {
        column + width
    } else if column >= width {
        column - width
    } else {
        column
    };

    (row * width + column) as usize
}

/// Row and column of the cell at `index`.
pub fn get_row_col(index: usize) -> (at: (i32, i32))
    requires
        index < SIZE,
    ensures
        at.0 == row_of(index as int),
        at.1 == column_of(index as int),
        0 <= at.0 < HEIGHT,
        0 <= at.1 < WIDTH,
        index_of(at.0 as int, at.1 as int) == index,
{
    let row: i32 = index as i32 / WIDTH;
    let col: i32 = index as i32 % WIDTH;
    (row, col)
}

/// The eight neighbours of the cell at `index`, in compass order, each found
/// from the cell's row and column.
pub fn neighbors_of(index: usize) -> (around: [usize; 8])
    requires
        index < SIZE,
    ensures
        forall|k: int| 0 <= k < 8 ==> around[k] == neighbor_of(index as int, k),
        forall|k: int| 0 <= k < 8 ==> around[k] < SIZE,
{
    let at: (i32, i32) = get_row_col(index);
    let row: i32 = at.0;
    let col: i32 = at.1;
    let north: usize = get_index(row - 1, col);
    let ne: usize = get_index(row - 1, col + 1);
    let east: usize = get_index(row, col + 1);
    let se: usize = get_index(row + 1, col + 1);
    let south: usize = get_index(row + 1, col);
    let sw: usize = get_index(row + 1, col - 1);
    let west: usize = get_index(row, col - 1);
    let nw: usize = get_index(row - 1, col - 1);
    [north, ne, east, se, south, sw, west, nw]
}

} // verus!
