//! Decoding of the packed integer arrays found in region files: block
//! palette indices and column heights stored as fixed-width fields in a
//! sequence of 64-bit words.
pub mod bits;

pub use bits::{bits_per_block, expand_blockstates, expand_generic, expand_heightmap};
