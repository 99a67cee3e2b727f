//! A verified framing parser for the Arrow IPC stream encoding.
//!
//! The parser recognizes continuation markers, reads 4-byte little-endian
//! length prefixes, delimits each framed message's metadata and body region,
//! and recognizes an optional end-of-stream terminator, without copying the
//! payload bytes. Interpretation of the metadata itself is delegated to an
//! external binary-metadata decoder behind a small trusted boundary.

pub mod decoder;
pub mod laws;
pub mod model;
pub mod parser;
