//! Directory listing: which entries a listing holds, in what order they
//! appear, and how each one is rendered as a line of text.
//!
//! The library works on plain values. Reading the file system and writing the
//! streams is left to the caller, who hands over what was read and prints what
//! comes back.

pub mod batch;
pub mod mode;
pub mod names;
pub mod order;
pub mod render;
pub mod resolve;
pub mod sort;
pub mod text;
