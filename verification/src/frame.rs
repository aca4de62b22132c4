//! Screen rectangles and how a split divides one.

use crate::util::Direction;
use vstd::prelude::*;

verus! {

/// A rectangle of screen cells: its left column `x`, its top row `y`, and its
/// size.
#[derive(Debug, Clone, Copy, PartialEq, Eq, Structural)]
pub struct Frame {
    pub x: usize,
    pub y: usize,
    pub width: usize,
    pub height: usize,
}

impl Frame {
    /// The far edges of the frame are representable.
    pub open spec fn wf(self) -> bool {
        &&& self.x + self.width <= usize::MAX
        &&& self.y + self.height <= usize::MAX
    }

    /// The cell in column `cx` and row `cy` lies in the frame.
    pub open spec fn contains(self, cx: int, cy: int) -> bool {
        &&& self.x <= cx < self.x + self.width
        &&& self.y <= cy < self.y + self.height
    }

    /// The frame as a set of cells, each a pair of column and row.
    pub open spec fn cells(self) -> Set<(int, int)> {
        Set::new(|c: (int, int)| self.contains(c.0, c.1))
    }

    /// The size of the frame along the axis that a split in direction `dir`
    /// cuts: the height for `Up` and `Down`, the width for `Left` and `Right`.
    pub open spec fn extent(self, dir: Direction) -> usize {
        match dir {
            Direction::Up | Direction::Down => self.height,
            Direction::Left | Direction::Right => self.width,
        }
    }

    /// `other` lies inside this frame.
    pub open spec fn encloses(self, other: Frame) -> bool {
        &&& self.x <= other.x
        &&& other.x + other.width <= self.x + self.width
        &&& self.y <= other.y
        &&& other.y + other.height <= self.y + self.height
    }

    /// The two parts of the frame when a strip of `thickness` cells is cut
    /// off at the edge named by `dir`: the strip first, the rest second.
    pub open spec fn split_spec(self, dir: Direction, thickness: usize) -> (Frame, Frame) {
        match dir {
            Direction::Up => (
                Frame { x: self.x, y: self.y, width: self.width, height: thickness },
                Frame {
                    x: self.x,
                    y: (self.y + thickness) as usize,
                    width: self.width,
                    height: (self.height - thickness) as usize,
                },
            ),
            Direction::Down => (
                Frame {
                    x: self.x,
                    y: (self.y + self.height - thickness) as usize,
                    width: self.width,
                    height: thickness,
                },
                Frame {
                    x: self.x,
                    y: self.y,
                    width: self.width,
                    height: (self.height - thickness) as usize,
                },
            ),
            Direction::Left => (
                Frame { x: self.x, y: self.y, width: thickness, height: self.height },
                Frame {
                    x: (self.x + thickness) as usize,
                    y: self.y,
                    width: (self.width - thickness) as usize,
                    height: self.height,
                },
            ),
            Direction::Right => (
                Frame {
                    x: (self.x + self.width - thickness) as usize,
                    y: self.y,
                    width: thickness,
                    height: self.height,
                },
                Frame {
                    x: self.x,
                    y: self.y,
                    width: (self.width - thickness) as usize,
                    height: self.height,
                },
            ),
        }
    }

    /// The frame of a whole screen of the given size, with its corner at the
    /// origin.
    pub fn screen(width: u16, height: u16) -> (r: Frame)
        ensures
            r == (Frame { x: 0, y: 0, width: width as usize, height: height as usize }),
            r.wf(),
    {
        Frame { x: 0, y: 0, width: width as usize, height: height as usize }
    }

    /// Cuts a strip of `line_width` cells off the edge named by `dir` and
    /// returns the strip and the rest.
    pub fn split(&self, dir: &Direction, line_width: usize) -> (r: (Frame, Frame))
        requires
            self.wf(),
            line_width <= self.extent(*dir),
        ensures
            r == self.split_spec(*dir, line_width),
            r.0.wf(),
            r.1.wf(),
    {
        match dir {
            Direction::Up => (
                Frame { x: self.x, y: self.y, width: self.width, height: line_width },
                Frame {
                    x: self.x,
                    y: self.y + line_width,
                    width: self.width,
                    height: self.height - line_width,
                },
            ),
            Direction::Down => (
                Frame {
                    x: self.x,
                    y: self.y + (self.height - line_width),
                    width: self.width,
                    height: line_width,
                },
                Frame {
                    x: self.x,
                    y: self.y,
                    width: self.width,
                    height: self.height - line_width,
                },
            ),
            Direction::Left => (
                Frame { x: self.x, y: self.y, width: line_width, height: self.height },
                Frame {
                    x: self.x + line_width,
                    y: self.y,
                    width: self.width - line_width,
                    height: self.height,
                },
            ),
            Direction::Right => (
                Frame {
                    x: self.x + (self.width - line_width),
                    y: self.y,
                    width: line_width,
                    height: self.height,
                },
                Frame {
                    x: self.x,
                    y: self.y,
                    width: self.width - line_width,
                    height: self.height,
                },
            ),
        }
    }
}

/// A split partitions the frame: every cell of the frame lies in exactly one
/// of the two parts, the parts hold no other cell, and each part lies inside
/// the frame.
pub proof fn lemma_split_partitions(frame: Frame, dir: Direction, thickness: usize)
    requires
        frame.wf(),
        thickness <= frame.extent(dir),
    ensures
        ({
            let (first, second) = frame.split_spec(dir, thickness);
            &&& first.cells().union(second.cells()) == frame.cells()
            &&& first.cells().disjoint(second.cells())
            &&& frame.encloses(first)
            &&& frame.encloses(second)
            &&& first.extent(dir) == thickness
            &&& first.extent(dir) + second.extent(dir) == frame.extent(dir)
        }),
{
    let (first, second) = frame.split_spec(dir, thickness);
    assert(first.cells().union(second.cells()) =~= frame.cells());
}

} // verus!
