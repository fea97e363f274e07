//! Integer vector primitives: the coordinate types of chunks, blocks and
//! texture corners.

use vstd::prelude::*;

verus! {

/// Integer 3-vector; the key of a chunk and the address of a block.
#[derive(Clone, Copy, Debug, PartialEq, Eq, Structural, Hash)]
pub struct IVec3 {
    pub x: i32,
    pub y: i32,
    pub z: i32,
}

impl IVec3 {
    pub fn new(x: i32, y: i32, z: i32) -> (v: Self)
        ensures
            v == (IVec3 { x, y, z }),
    {
        IVec3 { x, y, z }
    }

    /// Componentwise sum; the caller keeps every component in range.
    pub fn plus(self, o: Self) -> (v: Self)
        requires
            i32::MIN <= self.x + o.x <= i32::MAX,
            i32::MIN <= self.y + o.y <= i32::MAX,
            i32::MIN <= self.z + o.z <= i32::MAX,
        ensures
            v.x == self.x + o.x,
            v.y == self.y + o.y,
            v.z == self.z + o.z,
    {
        IVec3 { x: self.x + o.x, y: self.y + o.y, z: self.z + o.z }
    }
}

/// Unsigned 2-vector; carries a texture corner for a quad vertex.
#[derive(Clone, Copy, Debug, PartialEq, Eq, Structural, Hash)]
pub struct UVec2 {
    pub x: u32,
    pub y: u32,
}

impl UVec2 {
    pub fn new(x: u32, y: u32) -> (v: Self)
        ensures
            v == (UVec2 { x, y }),
    {
        UVec2 { x, y }
    }
}

/// A chunk-grid position as handed across the scripting boundary.
#[derive(Clone, Copy, Debug, PartialEq, Eq, Structural, Hash)]
pub struct RnIVec3(pub IVec3);

impl RnIVec3 {
    pub fn new(position: IVec3) -> (v: Self)
        ensures
            v == RnIVec3(position),
    {
        RnIVec3(position)
    }
}

} // verus!
