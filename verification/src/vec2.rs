use vstd::prelude::*;

verus! {

/// A 2D integer vector: positions and sizes of pixel rectangles.
/// The origin is the top-left corner, with y growing downward.
#[derive(Clone, Copy, PartialEq, Eq, Structural, Debug)]
pub struct IVec2 {
    pub x: i32,
    pub y: i32,
}

/// Builds an `IVec2` from its two components.
pub fn ivec2(x: i32, y: i32) -> (v: IVec2)
    ensures
        v.x == x,
        v.y == y,
{
    IVec2 { x, y }
}

} // verus!
