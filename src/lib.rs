//! Converts hierarchical LDraw part files into a flat triangle mesh.
//!
//! A file is read line by line into commands; subfile references are
//! resolved through a store of part files, each placed by its reference's
//! transform and wound by the parity of the inversions above it; every
//! triangle then gets its face normal.
pub mod geometry;
pub mod text;
pub mod error;
pub mod ldraw;
pub mod resolve;
pub mod mesh;
pub mod search;
