//! Index arithmetic of a square shallow-water simulation grid and of the
//! meshes that are rendered from it.
//!
//! The simulation itself works on floating-point fields; this crate holds the
//! integer logic that decides which cells, faces and vertices those fields are
//! read from and written to, with its contracts proved.

pub mod grid;
pub mod mesh;
pub mod strip;
