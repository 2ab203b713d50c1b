//! Decoding and re-encoding of Android's compiled resource containers.
//!
//! A container is a tree of self-describing, length-prefixed chunks. This crate
//! holds the chunk header arithmetic, the chunk stream that walks a region of a
//! buffer, and the codecs of string pools and of type specifications, each as a
//! borrowed view over the bytes and as an owned value that writes the bytes back.

pub mod chunks;
pub mod errors;
pub mod model;
pub mod parser;
pub mod text;
pub mod wire;
