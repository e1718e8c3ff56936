//! The rules of a destructible voxel world, verified.
//!
//! The world is a lattice of chunks, each a cube of occupancy bits. Spheres
//! are dug out of it and built into it across chunk boundaries; chunks that
//! changed are queued, one at a time, for a new mesh, which is read from a
//! neighbour-padded copy of the chunk and welded into a triangle list. A
//! character walks the world by casting its shape through it. A history of
//! every edit lets a second player catch up.
//!
//! Everything here is exact integer arithmetic. Lengths, positions, speeds
//! and angles are fixed-point numbers counted in thousandths: thousandths of
//! a voxel in voxel space, of a world unit in world space, of a second for
//! time and of a radian for angles. What needs the engine, the physics
//! engine's casts among it, is left to the caller, who hands in what they
//! came to.

pub mod grid;
pub mod math;
pub mod voxel;
pub mod chunks_manager;
pub mod generation;
pub mod terrain;
pub mod interaction;
pub mod kcc;
pub mod camera;
pub mod indexed_camera;
pub mod lobby;
pub mod utils;
