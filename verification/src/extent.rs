//! The smallest and largest coordinates among the points of a series.
use vstd::prelude::*;

verus! {

/// The smaller of two numbers.
pub open spec fn lesser(a: u32, b: u32) -> u32 {
    if a <= b {
        a
    } else {
        b
    }
}

/// The larger of two numbers.
pub open spec fn greater(a: u32, b: u32) -> u32 {
    if a >= b {
        a
    } else {
        b
    }
}

/// The bounds of the points seen so far, on each axis.
#[derive(Clone, Copy, Debug, PartialEq, Eq, Structural)]
pub struct Extent {
    pub x_min: u32,
    pub x_max: u32,
    pub y_min: u32,
    pub y_max: u32,
}

impl Extent {
    /// The bounds of no points: each minimum at the top of its range, each
    /// maximum at zero.
    pub fn new() -> (e: Extent)
        ensures
            e == (Extent { x_min: u32::MAX, x_max: 0, y_min: u32::MAX, y_max: 0 }),
    {
        Extent { x_min: u32::MAX, x_max: 0, y_min: u32::MAX, y_max: 0 }
    }

    /// Widens the bounds so that they hold the point `(x, y)`.
    pub fn widen(&mut self, x: u32, y: u32)
        ensures
            *final(self) == (Extent {
                x_min: lesser(old(self).x_min, x),
                x_max: greater(old(self).x_max, x),
                y_min: lesser(old(self).y_min, y),
                y_max: greater(old(self).y_max, y),
            }),
    {
        if x > self.x_max {
            self.x_max = x;
        }
        if y > self.y_max {
            self.y_max = y;
        }
        if x < self.x_min {
            self.x_min = x;
        }
        if y < self.y_min {
            self.y_min = y;
        }
    }
}

} // verus!
