//! A streamed voxel world.
//!
//! The world is a sparse, unbounded grid of voxels that is held chunk by
//! chunk: chunks around the viewers are generated and kept resident, idle
//! chunks are compressed, compressed chunks are decompressed when they are
//! read, and chunks that no viewer needs are dropped.
//!
//! - [`math`]: integer positions and boxes
//! - [`chunk`]: the voxel buffer of a chunk
//! - [`byte_order`], [`compressed_chunk`]: the codec
//! - [`index_set`], [`chunk_viewer`]: insertion-ordered sets of coordinates,
//!   and the window of chunks around a viewer
//! - [`chunk_map`], [`systems`]: the registry of chunks and the steps of its
//!   pipeline
//! - [`ray_cast`]: the grid side of ray traversal
//! - [`generator`]: terrain from a height field
//! - [`blocks`], [`mesher`]: block kinds, and the faces of a chunk that show
//! - [`physics`]: the switch of the physics simulation
//! - [`sequences`]: facts about sequences without repetition
//!
//! Arithmetic on floats, the task pool, channels and the engine's plugins
//! are left to the application.

pub mod blocks;
pub mod byte_order;
pub mod chunk;
pub mod chunk_map;
pub mod chunk_viewer;
pub mod compressed_chunk;
pub mod generator;
pub mod index_set;
pub mod math;
pub mod mesher;
pub mod physics;
pub mod ray_cast;
pub mod sequences;
pub mod systems;
