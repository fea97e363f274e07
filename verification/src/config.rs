//! World-shape configuration: how far the world extends, in chunks, in each
//! direction, and how far clients render. Parsed configuration assets are
//! reduced to these plain fields before they reach the generator; when the
//! asset is absent or malformed, callers fall back to `Default`.

use vstd::prelude::*;

verus! {

/// Horizontal and vertical world extent, in chunk coordinates.
///
/// `chunk_range` is the horizontal radius; `chunk_height_range` bounds chunk
/// positions above the origin and `chunk_bottom_range` (stored as a
/// non-positive coordinate) bounds them below.
#[derive(Clone, Copy, Debug, PartialEq, Eq, Structural)]
pub struct WorldConfig {
    pub chunk_range: i32,
    pub chunk_height_range: i32,
    pub chunk_bottom_range: i32,
    pub world_height_render: i32,
    pub world_bottom_render: i32,
    pub range_render: i32,
}

impl WorldConfig {
    /// A configuration the generator can use: the horizontal radius is a
    /// radius, and the vertical bounds are ordered.
    pub open spec fn wf(self) -> bool {
        &&& 0 <= self.chunk_range
        &&& self.chunk_bottom_range <= self.chunk_height_range
    }
}

impl Default for WorldConfig {
    /// The fixed fallback used when the configuration asset is absent or
    /// malformed.
    fn default() -> (c: Self)
        ensures
            c == (WorldConfig {
                chunk_range: 4,
                chunk_height_range: 4,
                chunk_bottom_range: -2i32,
                world_height_render: 5,
                world_bottom_render: -3i32,
                range_render: 6,
            }),
            c.wf(),
    {
        WorldConfig {
            chunk_range: 4,
            chunk_height_range: 4,
            chunk_bottom_range: -2,
            world_height_render: 5,
            world_bottom_render: -3,
            range_render: 6,
        }
    }
}

/// Which lattice noise a layer samples.
#[derive(Clone, Copy, Debug, PartialEq, Eq, Structural)]
pub enum NoiseType {
    Perlin,
    Value,
}

} // verus!
