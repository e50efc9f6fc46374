//! The state of one cell, the rule that takes it to the next generation, and
//! how it is read from a random draw and written as a byte.

use vstd::prelude::*;

verus! {

/// One cell of the grid.
#[derive(Clone, Copy, Debug, PartialEq, Eq, Structural)]
pub enum Cell {
    Dead,
    Alive,
}

/// A draw below this limit gives a live cell.
///
/// A draw is a binary64 number from zero up to, but not including, one,
/// handed over as its bit pattern. Among the binary64 numbers that are not
/// negative, the greater number has the greater bit pattern, so the draws
/// below three tenths are those whose bit pattern is below that of three
/// tenths, which is this constant.
pub const LIVE_BELOW: u64 = 0x3FD3_3333_3333_3333;

/// The other state: `Alive` for `Dead`, `Dead` for `Alive`.
pub open spec fn flipped(cell: Cell) -> Cell {
    match cell {
        Cell::Alive => Cell::Dead,
        Cell::Dead => Cell::Alive,
    }
}

/// The state that follows `cell` when `live_neighbors` of the cells around it
/// are alive, by the four classic rules: a live cell with fewer than two live
/// neighbours dies, one with two or three lives on, one with more than three
/// dies, and a dead cell with exactly three comes alive.
pub open spec fn next_state(cell: Cell, live_neighbors: int) -> Cell {
    match cell {
        Cell::Alive => if live_neighbors < 2 {
            Cell::Dead
        } else if live_neighbors <= 3 {
            Cell::Alive
        } else {
            Cell::Dead
        },
        Cell::Dead => if live_neighbors == 3 {
            Cell::Alive
        } else {
            Cell::Dead
        },
    }
}

/// The cell that a draw gives: alive if the draw is below `LIVE_BELOW`.
pub open spec fn drawn(draw: u64) -> Cell {
    if draw < LIVE_BELOW {
        Cell::Alive
    } else {
        Cell::Dead
    }
}

/// The byte that stands for a cell where cells are handed out as bytes: zero
/// for a dead cell, one for a live one.
pub open spec fn byte_of(cell: Cell) -> u8 {
    match cell {
        Cell::Dead => 0,
        Cell::Alive => 1,
    }
}

impl Cell {
    /// Flips the cell in place.
    pub fn toggle(&mut self)
        ensures
            *final(self) == flipped(*old(self)),
    {
        *self = match *self {
            Cell::Alive => Cell::Dead,
            Cell::Dead => Cell::Alive,
        };
    }

    /// The cell's state in the next generation, given how many of its eight
    /// neighbours are alive now.
    ///
    /// The rule is applied in its short form: a count of three gives a live
    /// cell whatever was there, a count of two leaves the cell as it is, and
    /// any other count gives a dead cell. The contract states that this is
    /// what the four classic rules give.
    pub fn tick(&self, live_neighbors: usize) -> (next: Cell)
        ensures
            next == next_state(*self, live_neighbors as int),
    {
        match (*self, live_neighbors) {
            (Cell::Alive, 2) => Cell::Alive,
            (_, 3) => Cell::Alive,
            _ => Cell::Dead,
        }
    }

    /// The cell that a random draw gives. See `LIVE_BELOW` for what a draw
    /// is.
    pub fn from_draw(draw: u64) -> (cell: Cell)
        ensures
            cell == drawn(draw),
    {
        if draw < LIVE_BELOW {
            Cell::Alive
        } else {
            Cell::Dead
        }
    }

    /// The cell as a byte: zero if dead, one if alive.
    pub fn as_byte(self) -> (byte: u8)
        ensures
            byte == byte_of(self),
    {
        match self {
            Cell::Dead => 0,
            Cell::Alive => 1,
        }
    }
}

} // verus!
