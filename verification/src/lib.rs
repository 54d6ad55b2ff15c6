//! World-simulation core of a block-based 3D sandbox client: a chunked voxel
//! store that tracks which blocks are face-exposed for rendering, a ray-based
//! block-targeting query, and a swept axis-aligned collision resolver that
//! keeps a moving player capsule out of solid voxels.

pub mod block;
pub mod coords;
pub mod world;
pub mod game;
pub mod laws;
pub mod camera;
pub mod physics;
