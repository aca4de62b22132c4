//! A panel's position in its buffer.

use crate::util::Direction;
use vstd::prelude::*;

verus! {

/// A column `x` and a row `y`, both counted from zero.
#[derive(Debug, Clone, Copy, PartialEq, Eq, Structural)]
pub struct Cursor {
    pub x: usize,
    pub y: usize,
}

impl Default for Cursor {
    fn default() -> (r: Cursor)
        ensures
            r == (Cursor { x: 0, y: 0 }),
    {
        Cursor { x: 0, y: 0 }
    }
}

/// `v - n`, stopping at zero.
pub open spec fn back(v: usize, n: usize) -> usize {
    if v > n {
        (v - n) as usize
    } else {
        0
    }
}

/// `v + n`, stopping at the largest `usize`.
pub open spec fn forth(v: usize, n: usize) -> usize {
    if v + n <= usize::MAX {
        (v + n) as usize
    } else {
        usize::MAX
    }
}

impl Cursor {
    /// Where the cursor stands after `n` steps in direction `dir`: up and
    /// left stop at zero, down and right at the largest `usize`.
    pub open spec fn moved(self, dir: Direction, n: usize) -> Cursor {
        match dir {
            Direction::Up => Cursor { x: self.x, y: back(self.y, n) },
            Direction::Down => Cursor { x: self.x, y: forth(self.y, n) },
            Direction::Left => Cursor { x: back(self.x, n), y: self.y },
            Direction::Right => Cursor { x: forth(self.x, n), y: self.y },
        }
    }

    /// Moves the cursor `n` steps in direction `dir`.
    pub fn go(&mut self, dir: Direction, n: usize)
        ensures
            *final(self) == old(self).moved(dir, n),
    {
        match dir {
            Direction::Up => {
                self.y = if self.y > n { self.y - n } else { 0 };
            },
            Direction::Down => {
                self.y = if n <= usize::MAX - self.y { self.y + n } else { usize::MAX };
            },
            Direction::Left => {
                self.x = if self.x > n { self.x - n } else { 0 };
            },
            Direction::Right => {
                self.x = if n <= usize::MAX - self.x { self.x + n } else { usize::MAX };
            },
        }
    }
}

} // verus!
