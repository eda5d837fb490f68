//! The outside crates, as far as this library calls them.

pub mod chunk;
pub mod pdf;
pub mod writer;
pub mod xmp;
