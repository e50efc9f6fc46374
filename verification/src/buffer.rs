//! Two buffers and a mark that says which one is current.
//!
//! What is read comes from the current buffer. A new state is written to the
//! other buffer, the next one, while the current one is still being read, and
//! only when the next one is complete does the mark move. The two buffers are
//! owned side by side: nothing is shared between them.

use vstd::prelude::*;

verus! {

/// A current value and a next one, which change places in one step.
pub struct DoubleBuffer<T> {
    first: T,
    second: T,
    second_is_current: bool,
}

impl<T: Copy> DoubleBuffer<T> {
    /// The buffer that holds the state.
    pub closed spec fn current(&self) -> T {
        if self.second_is_current {
            self.second
        } else {
            self.first
        }
    }

    /// The buffer that the state after this one is written to.
    pub closed spec fn next(&self) -> T {
        if self.second_is_current {
            self.first
        } else {
            self.second
        }
    }

    /// Two buffers that both hold `data`.
    pub fn new(data: T) -> (buffer: DoubleBuffer<T>)
        ensures
            buffer.current() == data,
            buffer.next() == data,
    {
        DoubleBuffer { first: data, second: data, second_is_current: false }
    }

    /// The current buffer to read and the next one to write, at once.
    pub fn borrow_read_write(&mut self) -> (both: (&T, &mut T))
        ensures
            *both.0 == old(self).current(),
            *both.1 == old(self).next(),
            final(self).current() == old(self).current(),
            final(self).next() == *final(both.1),
    {
        if self.second_is_current {
            (&self.second, &mut self.first)
        } else {
            (&self.first, &mut self.second)
        }
    }

    /// The current buffer, to read.
    pub fn borrow_read(&self) -> (current: &T)
        ensures
            *current == self.current(),
    {
        if self.second_is_current {
            &self.second
        } else {
            &self.first
        }
    }

    /// The current buffer, to change in place.
    pub fn borrow_current_mut(&mut self) -> (current: &mut T)
        ensures
            *current == old(self).current(),
            final(self).current() == *final(current),
            final(self).next() == old(self).next(),
    {
        if self.second_is_current {
            &mut self.second
        } else {
            &mut self.first
        }
    }

    /// Makes the next buffer the current one and the current one the next.
    pub fn swap_buffers(&mut self)
        ensures
            final(self).current() == old(self).next(),
            final(self).next() == old(self).current(),
    {
        self.second_is_current = !self.second_is_current;
    }
}

} // verus!
