//! Structural parsing of RIFF-family containers into a chunk tree.

pub mod error;
pub mod format;
