//! Points and regions of the complex plane and of the screen.
use vstd::prelude::*;
use vstd::std_specs::cmp::PartialOrdIs;

verus! {

/// A point in the complex plane.
#[derive(Debug, Clone, PartialEq)]
pub struct ComplexPoint<T> {
    pub x: T,
    pub y: T,
}

impl<T> ComplexPoint<T> {
    pub fn new(x: T, y: T) -> (point: Self)
        ensures
            point.x == x,
            point.y == y,
    {
        Self { x, y }
    }
}

/// A pixel coordinate on the screen.
#[derive(Debug, Clone, Copy, PartialEq, Eq, Structural)]
pub struct ScreenPoint {
    pub x: i32,
    pub y: i32,
}

impl ScreenPoint {
    pub fn new(x: i32, y: i32) -> (point: Self)
        ensures
            point == (ScreenPoint { x, y }),
    {
        Self { x, y }
    }
}

/// Dimensions of a screen or framebuffer.
#[derive(Debug, Clone, Copy, PartialEq, Eq, Structural)]
pub struct ScreenSize {
    pub width: usize,
    pub height: usize,
}

impl ScreenSize {
    /// A screen must have a size along both axes.
    pub fn new(width: usize, height: usize) -> (size: Self)
        requires
            width > 0 && height > 0,
        ensures
            size == (ScreenSize { width, height }),
    {
        Self { width, height }
    }
}

/// Rectangular region of the complex plane.
#[derive(Debug, Clone, PartialEq)]
pub struct ComplexEnvelope<T> {
    pub xmin: T,
    pub xmax: T,
    pub ymin: T,
    pub ymax: T,
}

impl<T: PartialOrd> ComplexEnvelope<T> {
    /// An envelope whose minimum lies strictly below its maximum on both axes.
    pub fn new(xmin: T, xmax: T, ymin: T, ymax: T) -> (envelope: Self)
        requires
            xmin.is_lt(&xmax),
            ymin.is_lt(&ymax),
        ensures
            envelope.xmin == xmin,
            envelope.xmax == xmax,
            envelope.ymin == ymin,
            envelope.ymax == ymax,
    {
        Self { xmin, xmax, ymin, ymax }
    }
}

} // verus!
