//! Voxel-world engine core: deterministic terrain generation, bit-packed
//! voxel storage, neighbor-aware face-culling meshing, and a bounded
//! scheduling pipeline, with machine-checked contracts.

pub mod codec;
pub mod config;
pub mod fastnoise;
pub mod generate;
pub mod math;
pub mod mesher;
pub mod registry;
pub mod scheduler;
pub mod store;
