//! Conway's Game of Life on a torus of 128 by 80 cells.
//!
//! A [`Universe`] holds the cells. `tick` takes all of them to the next
//! generation at once; `toggle_cell`, `set_cells`, `insert_glider_at`,
//! `insert_pulsar_at`, `clear` and `randomize` edit them by hand; `get_cells`
//! and `cells` hand them out to be drawn. Every one of these states, as a
//! contract that is proved, which cells the universe holds afterwards.
//!
//! # Layout
//!
//! - [`cell`]: the state of a cell and the rule for its next state.
//! - [`grid`]: the size of the grid, and how a row and a column that may lie
//!   outside it address a cell.
//! - [`neighbors`]: the table of every cell's eight neighbours.
//! - [`life`]: one generation of the whole grid, from one buffer into another.
//! - [`buffer`]: the two buffers that a generation is computed between.
//! - [`patterns`]: what flipping and setting cells does, the glider and the
//!   pulsar, and what holds of placing them.
//! - [`universe`]: the universe itself.
//! - [`history`]: what holds of every run of a universe.
//!
//! # Choices
//!
//! The size of the grid is fixed when the crate is compiled. The buffers are
//! arrays whose length is part of their type, so no operation checks a length
//! and no invariant has to carry one. The price is that a grid of another size
//! takes another build of the crate.
//!
//! The neighbours of a cell are looked up in a table that is filled once. The
//! table costs eight indices for each cell and saves eight wraparounds for
//! each cell in each generation. It holds, by its invariant, exactly what
//! would be computed from the cell's row and column.
//!
//! A generation is never computed in place, where a cell would see
//! neighbours that had already moved on. It is written into a second buffer,
//! and the two change places when it is complete.
//!
//! Readers are handed a borrowed slice of the cells or a copy of them as
//! bytes, never an address into the universe's storage.
//!
//! The universe draws no random numbers itself: `randomize` is given them.
//! Apart from that it is a function of where it started and of what has been
//! done to it since.
//!
//! An address may lie up to one full turn of the torus outside the grid, and
//! no further: it is brought back by one addition or subtraction, not by a
//! division. The operations that take addresses say so in what they require,
//! and [`grid::accepts`] tells whether an address will do.

pub mod buffer;
pub mod cell;
pub mod grid;
pub mod history;
pub mod life;
pub mod neighbors;
pub mod patterns;
pub mod universe;

pub use cell::Cell;
pub use universe::Universe;
