//! The on-disk format: byte cursor, chunk header, chunk tree, the grammar
//! that relates them and the builder that follows it.

pub mod builder;
pub mod cursor;
pub mod encoding;
pub mod endian;
pub mod grammar;
pub mod header;
pub mod layout;
pub mod node;
pub mod payload;
pub mod rejection;
