//! Failure cases of extra-dimension decoding.

use vstd::prelude::*;

verus! {

/// Everything that can go wrong while building a schema or reading a field.
#[derive(Debug, Clone, PartialEq)]
pub enum Error {
    /// A descriptor record was shorter than its fixed 192 bytes, or its name
    /// field did not decode as restricted (ASCII) text.
    MalformedDescriptor,
    /// A field access named a dimension absent from the schema; carries the
    /// requested name.
    DimensionNotFound(String),
    /// A decoded value could not be represented in the requested output type,
    /// or the source (an array type) has no numeric representation.
    CastError,
    /// A per-point byte blob was shorter than the resolved offset plus the
    /// width of the field being read.
    TruncatedBuffer,
}

impl Error {
    /// A short human-readable account of the failure.
    pub fn description(&self) -> &'static str {
        match self {
            Error::MalformedDescriptor => "malformed extra-bytes descriptor",
            Error::DimensionNotFound(_) => "no extra dimension with that name",
            Error::CastError => "cannot cast to requested type",
            Error::TruncatedBuffer => "byte blob too short for field",
        }
    }
}

} // verus!
