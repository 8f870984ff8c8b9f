//! Decoder for EDB asset containers: header and directory, entity and map
//! records, mesh reconstruction from triangle strips, and trigger link graphs.
//! Every routine works on the whole file held as a byte slice.

pub mod bytes;
pub mod header;
pub mod entity;
pub mod mesh;
pub mod map;
pub mod shell;
pub mod render;
pub mod texture;
