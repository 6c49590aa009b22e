//! A rectangle with an area, containment test and doubling.

use vstd::prelude::*;

verus! {

/// A rectangle given by its side lengths.
#[derive(Clone, Copy, Debug)]
pub struct Rectangle {
    width: u32,
    height: u32,
}

impl Rectangle {
    /// The width.
    pub closed spec fn width_spec(self) -> u32 {
        self.width
    }

    /// The height.
    pub closed spec fn height_spec(self) -> u32 {
        self.height
    }

    /// The area.
    pub fn area(&self) -> (a: u32)
        requires
            self.width_spec() * self.height_spec() <= u32::MAX,
        ensures
            a == self.width_spec() * self.height_spec(),
    {
        self.width * self.height
    }

    /// Whether the other rectangle fits strictly inside this one.
    pub fn can_hold(&self, other: &Rectangle) -> (r: bool)
        ensures
            r == (self.width_spec() > other.width_spec() && self.height_spec()
                > other.height_spec()),
    {
        self.width > other.width && self.height > other.height
    }

    /// Doubles both sides.
    pub fn double_size(&mut self)
        requires
            old(self).width_spec() * 2 <= u32::MAX,
            old(self).height_spec() * 2 <= u32::MAX,
        ensures
            final(self).width_spec() == old(self).width_spec() * 2,
            final(self).height_spec() == old(self).height_spec() * 2,
    {
        self.width = self.width * 2;
        self.height = self.height * 2;
    }

    /// A square with the given side.
    pub fn square(size: u32) -> (r: Self)
        ensures
            r.width_spec() == size,
            r.height_spec() == size,
    {
        Self { width: size, height: size }
    }

    /// A rectangle with the given sides.
    pub fn new(width: u32, height: u32) -> (r: Self)
        ensures
            r.width_spec() == width,
            r.height_spec() == height,
    {
        Self { width, height }
    }
}

} // verus!
