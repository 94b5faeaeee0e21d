//! Decoding of "extra dimensions" appended to point records in LAS-style
//! point-cloud data.
//!
//! A side record (VLR) with the reserved identifier carries an ordered list of
//! fixed-size 192-byte descriptors, each naming one extra field and giving its
//! primitive type. This crate parses that metadata into a schema, resolves a
//! named field's byte offset within a point's packed extra-byte blob, decodes
//! the little-endian value found there, and converts it to a caller-requested
//! integer type where the value is representable.
//!
//! Floating-point fields are carried as their IEEE 754 bit patterns, so that
//! every decoding and conversion step is expressed over plain integers.

pub mod cast;
pub mod error;
pub mod floatbits;
pub mod le;
pub mod raw;
pub mod vlr;
