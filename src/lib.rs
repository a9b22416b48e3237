//! A voxel world split into fixed-size chunks: which faces of each solid
//! voxel can be seen, a cube mesh for each visibility pattern, and a cache
//! that builds each pattern's mesh once.
pub mod cache;
pub mod chunk;
pub mod grid;
pub mod mesh;
pub mod systems;
pub mod voxel;
pub mod world;
