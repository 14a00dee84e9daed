use vstd::prelude::*;

verus! {

/// A two-dimensional `f32` vector, held as the IEEE-754 bit patterns of its
/// two coordinates.
#[derive(Clone, Copy, PartialEq, Eq, Structural, Debug, Default, Hash)]
pub struct Vec2Bits {
    pub x: u32,
    pub y: u32,
}

impl Vec2Bits {
    /// The zero vector (`+0.0`, `+0.0`).
    pub fn zero() -> (v: Vec2Bits)
        ensures
            v.x == 0,
            v.y == 0,
    {
        Vec2Bits { x: 0, y: 0 }
    }
}

} // verus!
