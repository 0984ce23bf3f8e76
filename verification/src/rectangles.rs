//! A rectangle with verified measurements.

use vstd::prelude::*;

verus! {

/// A rectangle, measured in whole pixels.
#[derive(Clone, Copy, Debug)]
pub struct Rectangle {
    width: u32,
    height: u32,
}

impl Rectangle {
    /// The stored width.
    pub closed spec fn spec_width(&self) -> u32 {
        self.width
    }

    /// The stored height.
    pub closed spec fn spec_height(&self) -> u32 {
        self.height
    }

    /// Builds a rectangle from its sides.
    pub fn new(width: u32, height: u32) -> (r: Rectangle)
        ensures
            r.spec_width() == width,
            r.spec_height() == height,
    {
        Rectangle { width, height }
    }

    /// The width, read back.
    pub fn width(&self) -> (r: u32)
        ensures
            r == self.spec_width(),
    {
        self.width
    }

    /// The height, read back.
    pub fn height(&self) -> (r: u32)
        ensures
            r == self.spec_height(),
    {
        self.height
    }

    /// Width times height.
    pub fn area(&self) -> (r: u32)
        requires
            self.spec_width() * self.spec_height() <= u32::MAX,
        ensures
            r == self.spec_width() * self.spec_height(),
    {
        self.width * self.height
    }

    /// Whether `other` fits strictly inside `self`.
    pub fn can_hold(&self, other: &Rectangle) -> (r: bool)
        ensures
            r == (self.spec_width() > other.spec_width() && self.spec_height()
                > other.spec_height()),
    {
        self.width > other.width && self.height > other.height
    }

    /// Whether the sides are equal.
    pub fn is_square(&self) -> (r: bool)
        ensures
            r == (self.spec_width() == self.spec_height()),
    {
        self.width == self.height
    }

    /// Twice the sum of the sides.
    pub fn perimeter(&self) -> (r: u32)
        requires
            2 * (self.spec_width() + self.spec_height()) <= u32::MAX,
        ensures
            r == 2 * (self.spec_width() + self.spec_height()),
    {
        2 * (self.width + self.height)
    }
}

/// Width times height, as a free function over the bare sides.
pub fn area(width: u32, height: u32) -> (r: u32)
    requires
        width * height <= u32::MAX,
    ensures
        r == width * height,
{
    width * height
}

} // verus!
