use vstd::prelude::*;

verus! {

/// A two-dimensional vector with fixed-point integer components.
#[derive(Clone, Copy, Debug, PartialEq, Eq, Structural)]
pub struct Vec2 {
    pub x: i128,
    pub y: i128,
}

impl Vec2 {
    /// The zero vector.
    pub fn zero() -> (r: Vec2)
        ensures
            r == (Vec2 { x: 0, y: 0 }),
    {
        Vec2 { x: 0, y: 0 }
    }

    /// Builds the vector (x, y).
    pub fn new(x: i128, y: i128) -> (r: Vec2)
        ensures
            r == (Vec2 { x: x, y: y }),
    {
        Vec2 { x, y }
    }
}

} // verus!
