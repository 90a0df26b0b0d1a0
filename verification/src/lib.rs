//! A bit-width-constrained numeric codec.
//!
//! Native fixed-size integers (and, through their raw bit patterns, IEEE-754
//! floating point values) are converted into minimal-length big-endian (MSB)
//! or little-endian (LSB) byte sequences truncated to an arbitrary bit width
//! between 1 and 64, and reconstructed from such sequences with masking
//! semantics: all bits at or above the declared width are zeroed.

pub mod bytes;
pub mod packing;
pub mod sized;
pub mod width;
