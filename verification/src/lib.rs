//! Voxelisation of closed triangle meshes on an axis-aligned sampling lattice.
//!
//! Coordinates are integers counted in lattice units, so every geometric
//! predicate is evaluated exactly and its outcome does not depend on the
//! physical scale of the mesh.

pub mod duration;
pub mod error;
pub mod geometry;
pub mod lattice;
pub mod stl;
pub mod ray;
pub mod classify;
pub mod clear;
pub mod scale;
pub mod grid;
pub mod evaluate;
pub mod header;
pub mod volume;
pub mod pipeline;
