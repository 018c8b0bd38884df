//! Serialization of multi-dimensional arrays of `f32` / `f64` elements into
//! NumPy's `.npy` container format (version 1.0).
//!
//! The library computes every byte that goes to the sink: the magic prefix,
//! the version, the little-endian header length, the padded textual header and
//! the element payload in row-major order. Elements are handed over as their
//! IEEE-754 bit patterns, so that all of the encoding can be proved.
pub mod array;
pub mod bytes;
pub mod decode;
pub mod dtype;
pub mod header;
pub mod laws;
pub mod session;
pub mod writer;
