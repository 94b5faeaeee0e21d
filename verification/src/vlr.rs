//! The slice of a variable-length record (VLR) that extra-bytes parsing
//! needs: a numeric record identifier and an opaque byte payload.

use vstd::prelude::*;

verus! {

/// The record identifier reserved for the extra-dimensions schema record.
pub const EXTRA_BYTES_RECORD_ID: u16 = 4;

/// A side record of the containing file: identified by `record_id`, carrying
/// the opaque payload `data`.
#[derive(Clone, Debug)]
pub struct Vlr {
    /// Identifies what the record describes.
    pub record_id: u16,
    /// The record's raw payload.
    pub data: Vec<u8>,
}

} // verus!
