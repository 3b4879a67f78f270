//! Whole positions on the canvas.
use crate::fixed::Fixed;
use vstd::prelude::*;

verus! {

/// A pixel position that counts from the centre of the canvas, with the
/// shade that belongs to it.
#[derive(Clone, Copy, Debug)]
pub struct Point2 {
    pub x: i32,
    pub y: i32,
    pub h: Fixed,
}

impl Point2 {
    /// The point at column `x` and row `y` with shade `h`.
    pub fn new(x: i32, y: i32, h: Fixed) -> (p: Self)
        ensures
            p == (Point2 { x, y, h }),
    {
        Self { x, y, h }
    }

    /// The point moved by `x` columns and `y` rows; the shade stays.
    pub fn add(self, x: i32, y: i32) -> (p: Self)
        requires
            i32::MIN <= self.x + x <= i32::MAX,
            i32::MIN <= self.y + y <= i32::MAX,
        ensures
            p == (Point2 { x: (self.x + x) as i32, y: (self.y + y) as i32, h: self.h }),
    {
        Self::new(self.x + x, self.y + y, self.h)
    }
}

} // verus!
