//! A uniform-grid spatial index for a flocking simulation.
//!
//! Agents carry an axis-aligned bounding box; the corners of that box are
//! hashed to flat cell indices, and the world keeps, per cell, the agents
//! whose box touches it.  All coordinates are signed fixed-point numbers, so
//! that every index is reproducible bit for bit.

pub mod fixed;
pub mod vec3;
pub mod aabb;
pub mod boid;
pub mod camera;
pub mod cell;
pub mod hashing;
pub mod world;

pub use fixed::Fixed;
pub use vec3::Vec3;
pub use aabb::{AABBIter, AABB};
pub use boid::{Boid, BoidCellsIter};
pub use camera::{Key, Movement};
pub use cell::Cell;
pub use hashing::cell_index;
pub use world::{BoidInstance, ConfigurationError, World};
