//! A sparse, chunked voxel volume with a greedy face-merging mesher.
//!
//! The library keeps voxels in fixed 16x16x16 chunks ([`data::ChunkData`]),
//! maps integer chunk coordinates to the entity handles that own them
//! ([`world::VoxelWorld`]), resolves voxel queries at any integer
//! coordinate across chunk boundaries ([`world_slice::WorldSlice`]), and
//! turns the voxel occupancy of each dirty chunk into a compact list of
//! axis-aligned quads ([`mesh`]), six face directions ([`side`]) at a time,
//! culling every face between two equal voxels and merging the visible
//! faces of each depth plane into maximal rectangles.

pub mod data;
pub mod mesh;
pub mod side;
pub mod world;
pub mod world_slice;
