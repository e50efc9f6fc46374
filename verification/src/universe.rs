//! The universe: a grid of cells that one call takes to the next generation
//! and that others edit by hand.
//!
//! To a caller a universe is the sequence of its cells, row by row, which is
//! its view. Every operation states the view after it as a function of the
//! view before it and of its arguments, and of nothing else: what the second
//! buffer holds, and which of the two buffers is the current one, cannot be
//! told from outside.

use vstd::prelude::*;
use crate::buffer::DoubleBuffer;
use crate::cell::{byte_of, drawn, Cell};
use crate::grid::{addressable, get_index, index_of, HEIGHT, SIZE, WIDTH};
use crate::history::{applied, Operation};
use crate::life::{advance, blank, next_generation};
use crate::neighbors::NeighborIndex;
use crate::patterns::{
    all_addressable, glider, glider_steps, lemma_listed_next, lemma_toggled_each_append,
    lemma_toggled_each_next, mirrored, placed, pulsar, pulsar_arms, toggled, toggled_each,
    widened, with_alive,
};

verus! {

/// The cells that a new universe starts with: alive where the index is a
/// multiple of two or of seven.
pub open spec fn seed() -> Seq<Cell> {
    Seq::new(
        SIZE as nat,
        |index: int|
            if index % 2 == 0 || index % 7 == 0 {
                Cell::Alive
            } else {
                Cell::Dead
            },
    )
}

/// The cells that `draws` give, one draw for each cell.
pub open spec fn randomized(draws: Seq<u64>) -> Seq<Cell> {
    Seq::new(SIZE as nat, |index: int| drawn(draws[index]))
}

/// `cells` as bytes, zero for a dead cell and one for a live one.
pub open spec fn as_bytes(cells: Seq<Cell>) -> Seq<u8> {
    Seq::new(cells.len(), |index: int| byte_of(cells[index]))
}

/// A grid of `WIDTH` by `HEIGHT` cells on a torus.
pub struct Universe {
    neighbors: NeighborIndex,
    cells: DoubleBuffer<[Cell; SIZE]>,
}

impl View for Universe {
    type V = Seq<Cell>;

    closed spec fn view(&self) -> Seq<Cell> {
        self.cells.current()@
    }
}

impl Universe {
    /// A universe has a cell for every place of the grid, whatever has been
    /// done to it.
    pub proof fn lemma_covers_the_grid(self)
        ensures
            self@.len() == SIZE,
    {
    }

    /// A universe with the starting pattern.
    pub fn new() -> (universe: Universe)
        ensures
            universe@ == seed(),
    {
        let mut cells = [Cell::Dead; SIZE];
        let mut i: usize = 0;
        while i < SIZE
            invariant
                i <= SIZE,
                forall|j: int| 0 <= j < i ==> cells@[j] == seed()[j],
                forall|j: int| i <= j < SIZE ==> cells@[j] == Cell::Dead,
            decreases SIZE - i,
        {
            if i % 2 == 0 || i % 7 == 0 {
                cells[i] = Cell::Alive;
            }
            i = i + 1;
        }
        assert(cells@ =~= seed());
        let cells = DoubleBuffer::new(cells);
        let neighbors = NeighborIndex::new();
        Universe { neighbors, cells }
    }

    /// Makes every cell dead.
    pub fn clear(&mut self)
        ensures
            final(self)@ == blank(),
            final(self)@ == applied(old(self)@, Operation::Clear),
    {
        let cells = self.cells.borrow_current_mut();
        let mut i: usize = 0;
        while i < SIZE
            invariant
                i <= SIZE,
                forall|j: int| 0 <= j < i ==> cells@[j] == Cell::Dead,
            decreases SIZE - i,
        {
            cells[i] = Cell::Dead;
            i = i + 1;
        }
        assert(cells@ =~= blank());
    }

    /// Gives every cell the state that its draw gives: alive for a draw below
    /// `cell::LIVE_BELOW`, dead for any other. `draws` holds one draw for each
    /// cell, in the order of the cells.
    pub fn randomize(&mut self, draws: &[u64; SIZE])
        ensures
            final(self)@ == randomized(draws@),
            final(self)@ == applied(old(self)@, (Operation::Randomize { draws: draws@ })),
    {
        let cells = self.cells.borrow_current_mut();
        let mut i: usize = 0;
        while i < SIZE
            invariant
                i <= SIZE,
                forall|j: int| 0 <= j < i ==> cells@[j] == drawn(draws@[j]),
            decreases SIZE - i,
        {
            cells[i] = Cell::from_draw(draws[i]);
            i = i + 1;
        }
        assert(cells@ =~= randomized(draws@));
    }

    /// Cells in a row.
    pub fn width() -> (width: i32)
        ensures
            width == WIDTH,
    {
        WIDTH
    }

    /// Rows in the grid.
    pub fn height() -> (height: i32)
        ensures
            height == HEIGHT,
    {
        HEIGHT
    }

    /// A copy of the cells as bytes, row by row: zero for a dead cell and one
    /// for a live one.
    pub fn cells(&self) -> (bytes: Vec<u8>)
        ensures
            bytes@ == as_bytes(self@),
            bytes@.len() == SIZE,
    {
        let cells = self.cells.borrow_read();
        let mut bytes: Vec<u8> = Vec::new();
        let mut i: usize = 0;
        while i < SIZE
            invariant
                i <= SIZE,
                bytes@.len() == i,
                forall|j: int| 0 <= j < i ==> bytes@[j] == byte_of(cells@[j]),
            decreases SIZE - i,
        {
            bytes.push(cells[i].as_byte());
            i = i + 1;
        }
        assert(bytes@ =~= as_bytes(self@));
        bytes
    }

    /// Flips the cell that each of `steps` leads to from the anchor at `row`
    /// and `col`, from the first step to the last.
    fn toggle_steps(&mut self, row: i32, col: i32, steps: &[(i32, i32)])
        requires
            all_addressable(placed(widened(steps@), row as int, col as int)),
        ensures
            final(self)@ == toggled_each(
                old(self)@,
                placed(widened(steps@), row as int, col as int),
            ),
    {
        let ghost points = placed(widened(steps@), row as int, col as int);
        let mut k: usize = 0;
        while k < steps.len()
            invariant
                k <= steps@.len(),
                points == placed(widened(steps@), row as int, col as int),
                all_addressable(points),
                self@ == toggled_each(old(self)@, points.take(k as int)),
            decreases steps@.len() - k,
        {
            let step: (i32, i32) = steps[k];
            proof {
                assert(addressable(points[k as int].0, points[k as int].1));
                lemma_toggled_each_next(old(self)@, points, k as int);
            }
            self.toggle_cell(row + step.0, col + step.1);
            k = k + 1;
        }
        assert(points.take(steps@.len() as int) =~= points);
    }

    /// Flips the five cells of a glider around the anchor at `row` and `col`.
    /// The anchor is the middle of the three by three square that holds the
    /// glider, and every cell of that square has to be an address that the
    /// grid accepts.
    pub fn insert_glider_at(&mut self, row: i32, col: i32)
        requires
            addressable(row - 1, col - 1),
            addressable(row + 1, col + 1),
        ensures
            final(self)@ == toggled_each(old(self)@, glider(row as int, col as int)),
            final(self)@ == applied(
                old(self)@,
                (Operation::InsertGlider { row: row as int, col: col as int }),
            ),
    {
        let steps: [(i32, i32); 5] = [(-1, 0), (0, 1), (1, -1), (1, 0), (1, 1)];
        assert(widened(steps@) =~= glider_steps());
        self.toggle_steps(row, col, steps.as_slice());
    }

    /// Flips the forty-eight cells of a pulsar around the anchor at `row` and
    /// `col`. The pulsar reaches six cells from its anchor in every
    /// direction, and every cell of that square has to be an address that the
    /// grid accepts.
    pub fn insert_pulsar_at(&mut self, row: i32, col: i32)
        requires
            addressable(row - 6, col - 6),
            addressable(row + 6, col + 6),
        ensures
            final(self)@ == toggled_each(old(self)@, pulsar(row as int, col as int)),
            final(self)@ == applied(
                old(self)@,
                (Operation::InsertPulsar { row: row as int, col: col as int }),
            ),
    {
        let arms: [(i32, i32); 6] = [(1, 2), (1, 3), (1, 4), (2, 6), (3, 6), (4, 6)];
        let ghost points = pulsar(row as int, col as int);
        let mut k: usize = 0;
        while k < 6
            invariant
                k <= 6,
                addressable(row - 6, col - 6),
                addressable(row + 6, col + 6),
                points == pulsar(row as int, col as int),
                forall|j: int|
                    0 <= j < 6 ==> (#[trigger] arms[j]).0 == pulsar_arms()[j].0 && arms[j].1
                        == pulsar_arms()[j].1,
                self@ == toggled_each(old(self)@, points.take(8 * k)),
            decreases 6 - k,
        {
            let a: i32 = arms[k].0;
            let b: i32 = arms[k].1;
            let images: [(i32, i32); 8] = [
                (a, b),
                (a, -b),
                (-a, b),
                (-a, -b),
                (b, a),
                (b, -a),
                (-b, a),
                (-b, -a),
            ];
            proof {
                let placed_images = placed(widened(images@), row as int, col as int);
                assert(widened(images@) =~= mirrored((a as int, b as int)));
                lemma_toggled_each_append(old(self)@, points.take(8 * k), placed_images);
                assert(points.take(8 * k) + placed_images =~= points.take(8 * (k + 1)));
            }
            self.toggle_steps(row, col, images.as_slice());
            k = k + 1;
        }
        assert(points.take(48) =~= points);
    }

    /// Takes every cell to the next generation at once: each cell's new state
    /// follows from its old state and from its neighbours' old states.
    pub fn tick(&mut self)
        ensures
            final(self)@ == next_generation(old(self)@),
            final(self)@ == applied(old(self)@, Operation::Tick),
    {
        let (current, next) = self.cells.borrow_read_write();
        advance(current, next, &self.neighbors);
        self.cells.swap_buffers();
    }

    /// Flips the cell that `row` and `col` address.
    pub fn toggle_cell(&mut self, row: i32, col: i32)
        requires
            addressable(row as int, col as int),
        ensures
            final(self)@ == toggled(old(self)@, index_of(row as int, col as int)),
            final(self)@ == applied(
                old(self)@,
                (Operation::ToggleCell { row: row as int, col: col as int }),
            ),
    {
        let idx: usize = get_index(row, col);
        let cells = self.cells.borrow_current_mut();
        cells[idx].toggle();
    }

    /// The cells, row by row.
    pub fn get_cells(&self) -> (cells: &[Cell])
        ensures
            cells@ == self@,
            cells@.len() == SIZE,
    {
        self.cells.borrow_read().as_slice()
    }

    /// Makes the cell alive that each of `cells` addresses by row and column,
    /// and leaves every other cell as it is.
    pub fn set_cells(&mut self, cells: &[(i32, i32)])
        requires
            all_addressable(widened(cells@)),
        ensures
            final(self)@ == with_alive(old(self)@, widened(cells@)),
            final(self)@ == applied(old(self)@, (Operation::SetCells { cells: widened(cells@) })),
    {
        let ghost points = widened(cells@);
        let mut i: usize = 0;
        proof {
            assert(self@ =~= with_alive(old(self)@, points.take(0)));
        }
        while i < cells.len()
            invariant
                i <= cells@.len(),
                points == widened(cells@),
                all_addressable(points),
                self@ == with_alive(old(self)@, points.take(i as int)),
            decreases cells@.len() - i,
        {
            let at: (i32, i32) = cells[i];
            proof {
                assert(addressable(points[i as int].0, points[i as int].1));
            }
            let idx: usize = get_index(at.0, at.1);
            let current = self.cells.borrow_current_mut();
            current[idx] = Cell::Alive;
            proof {
                lemma_listed_next(points, i as int);
                assert(self@ =~= with_alive(old(self)@, points.take(i + 1)));
            }
            i = i + 1;
        }
        assert(points.take(cells@.len() as int) =~= points);
    }
}

} // verus!
