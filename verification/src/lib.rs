//! Streaming voxel terrain: fixed-size chunks of blocks, a terrain store that
//! decides what to load and unload around an observer, a mesher that turns a
//! chunk and its neighbours into culled, shaded quads, and a mesh store that
//! decides what to mesh and when. What holds of the terrain store over
//! several ticks is proved in `lifecycle`.
//!
//! Everything here works on integers. Positions of mesh vertices are kept in
//! half-block units and texture coordinates in atlas tiles, so that a renderer
//! only has to scale them.

pub mod block;
pub mod chunk;
pub mod coords;
pub mod generator;
pub mod lifecycle;
pub mod mesh;
pub mod mesher;
pub mod mesh_store;
pub mod table;
pub mod terrain;
