//! Extra-bytes schema parsing and per-point field access.
//!
//! A side record carries an ordered list of fixed 192-byte descriptors, each
//! naming one extra dimension and giving its primitive type. The parser
//! decodes those descriptors, resolves a named dimension's byte offset within
//! a point's packed extra-byte blob, and decodes the little-endian value found
//! there.

use crate::cast::cast_extra;
use crate::cast::CastTarget;
use crate::error::Error;
use crate::floatbits::f32_trunc;
use crate::floatbits::f64_trunc;
use crate::le::le_value;
use crate::le::read_u16_le;
use crate::le::read_u32_le;
use crate::le::read_u64_le;
use crate::le::reinterpret_i16;
use crate::le::reinterpret_i32;
use crate::le::reinterpret_i64;
use crate::le::reinterpret_i8;
use crate::le::to_signed;
use crate::vlr::EXTRA_BYTES_RECORD_ID;
use crate::vlr::Vlr;
use vstd::prelude::*;
use vstd::string::StringSliceAdditionalSpecFns;

verus! {

/// The primitive element types an extra dimension can have.
#[derive(Debug, Copy, Clone, PartialEq, Eq, Structural)]
pub enum ExtraDimTypes {
    /// Unsigned 8-bit integer.
    U8,
    /// Unsigned 16-bit integer.
    U16,
    /// Unsigned 32-bit integer.
    U32,
    /// Unsigned 64-bit integer.
    U64,
    /// Signed 8-bit integer.
    I8,
    /// Signed 16-bit integer.
    I16,
    /// Signed 32-bit integer.
    I32,
    /// Signed 64-bit integer.
    I64,
    /// 32-bit float, carried as its bit pattern.
    F32,
    /// 64-bit float, carried as its bit pattern.
    F64,
    /// Array of two unsigned bytes.
    A2U8,
}

/// One decoded extra-dimension value. Float variants hold the IEEE 754 bit
/// pattern of the value read from the blob.
#[derive(Debug, Copy, Clone, PartialEq)]
pub enum DimensionValue {
    /// Unsigned 8-bit integer.
    U8(u8),
    /// Unsigned 16-bit integer.
    U16(u16),
    /// Unsigned 32-bit integer.
    U32(u32),
    /// Unsigned 64-bit integer.
    U64(u64),
    /// Signed 8-bit integer.
    I8(i8),
    /// Signed 16-bit integer.
    I16(i16),
    /// Signed 32-bit integer.
    I32(i32),
    /// Signed 64-bit integer.
    I64(i64),
    /// Bit pattern of a 32-bit float.
    F32(u32),
    /// Bit pattern of a 64-bit float.
    F64(u64),
    /// Two independent bytes.
    A2U8((u8, u8)),
}

impl ExtraDimTypes {
    /// The bytes a dimension of this type occupies in the packed per-point
    /// blob. The on-disk width table reserves 8 bytes of layout budget for
    /// `F32` even though only 4 are read; that quirk is preserved here.
    pub open spec fn width(self) -> nat {
        match self {
            ExtraDimTypes::U8 => 1,
            ExtraDimTypes::I8 => 1,
            ExtraDimTypes::U16 => 2,
            ExtraDimTypes::I16 => 2,
            ExtraDimTypes::U32 => 4,
            ExtraDimTypes::I32 => 4,
            ExtraDimTypes::U64 => 8,
            ExtraDimTypes::I64 => 8,
            ExtraDimTypes::F32 => 8,
            ExtraDimTypes::F64 => 8,
            ExtraDimTypes::A2U8 => 2,
        }
    }

    /// The bytes the decoder actually consumes for this type: the value's own
    /// width, which for `F32` is 4, not the 8 bytes of layout budget.
    pub open spec fn read_width(self) -> nat {
        match self {
            ExtraDimTypes::F32 => 4,
            _ => self.width(),
        }
    }

    /// The layout width of this type, as [`Self::width`].
    pub fn size(&self) -> (r: usize)
        ensures
            r == self.width(),
    {
        match self {
            ExtraDimTypes::U8 => 1,
            ExtraDimTypes::I8 => 1,
            ExtraDimTypes::U16 => 2,
            ExtraDimTypes::I16 => 2,
            ExtraDimTypes::U32 => 4,
            ExtraDimTypes::I32 => 4,
            ExtraDimTypes::U64 => 8,
            ExtraDimTypes::I64 => 8,
            ExtraDimTypes::F32 => 8,
            ExtraDimTypes::F64 => 8,
            ExtraDimTypes::A2U8 => 2,
        }
    }
}

/// The type a descriptor's 1-byte type code denotes. Codes 1 through 10 map
/// one-to-one to the scalar types, 11 to the two-byte array; every other code
/// (0 included) falls back to `F64`, preserving the format's observed
/// behavior of masking unrecognized codes rather than failing.
pub open spec fn spec_value_to_type(value_type: u8) -> ExtraDimTypes {
    match value_type {
        1u8 => ExtraDimTypes::U8,
        2u8 => ExtraDimTypes::I8,
        3u8 => ExtraDimTypes::U16,
        4u8 => ExtraDimTypes::I16,
        5u8 => ExtraDimTypes::U32,
        6u8 => ExtraDimTypes::I32,
        7u8 => ExtraDimTypes::U64,
        8u8 => ExtraDimTypes::I64,
        9u8 => ExtraDimTypes::F32,
        10u8 => ExtraDimTypes::F64,
        11u8 => ExtraDimTypes::A2U8,
        _ => ExtraDimTypes::F64,
    }
}

/// Maps a descriptor's type code to its primitive type, per
/// [`spec_value_to_type`].
pub fn value_to_type(value_type: u8) -> (r: ExtraDimTypes)
    ensures
        r == spec_value_to_type(value_type),
{
    match value_type {
        1 => ExtraDimTypes::U8,
        2 => ExtraDimTypes::I8,
        3 => ExtraDimTypes::U16,
        4 => ExtraDimTypes::I16,
        5 => ExtraDimTypes::U32,
        6 => ExtraDimTypes::I32,
        7 => ExtraDimTypes::U64,
        8 => ExtraDimTypes::I64,
        9 => ExtraDimTypes::F32,
        10 => ExtraDimTypes::F64,
        11 => ExtraDimTypes::A2U8,
        _ => ExtraDimTypes::F64,
    }
}

/// A point record's raw extra-byte blob.
#[derive(Clone, Debug)]
pub struct ExtraBytes {
    #[allow(dead_code)]
    bytes: Vec<u8>,
}

/// The value encoded at `off` in `bytes` for a dimension of type `t`:
/// little-endian for every multi-byte primitive, two's complement for the
/// signed types, the raw bit pattern for the float types, and two independent
/// bytes for the array type.
pub open spec fn decode_at(bytes: Seq<u8>, off: int, t: ExtraDimTypes) -> DimensionValue {
    let s = bytes.subrange(off, off + t.read_width());
    match t {
        ExtraDimTypes::U8 => DimensionValue::U8(s[0]),
        ExtraDimTypes::I8 => DimensionValue::I8(to_signed(s[0] as nat, 0x80) as i8),
        ExtraDimTypes::U16 => DimensionValue::U16(le_value(s) as u16),
        ExtraDimTypes::I16 => DimensionValue::I16(to_signed(le_value(s), 0x8000) as i16),
        ExtraDimTypes::U32 => DimensionValue::U32(le_value(s) as u32),
        ExtraDimTypes::I32 => DimensionValue::I32(to_signed(le_value(s), 0x8000_0000) as i32),
        ExtraDimTypes::U64 => DimensionValue::U64(le_value(s) as u64),
        ExtraDimTypes::I64 => DimensionValue::I64(
            to_signed(le_value(s), 0x8000_0000_0000_0000) as i64,
        ),
        ExtraDimTypes::F32 => DimensionValue::F32(le_value(s) as u32),
        ExtraDimTypes::F64 => DimensionValue::F64(le_value(s) as u64),
        ExtraDimTypes::A2U8 => DimensionValue::A2U8((s[0], s[1])),
    }
}

/// The mathematical integer a decoded value denotes when converted to an
/// integer type: the scalar itself for the integer variants, the encoded
/// value truncated toward zero for the float variants (`None` for an infinity
/// or NaN), and `None` for the array variant, which has no numeric
/// representation.
pub open spec fn dim_int_value(v: DimensionValue) -> Option<int> {
    match v {
        DimensionValue::U8(x) => Some(x as int),
        DimensionValue::U16(x) => Some(x as int),
        DimensionValue::U32(x) => Some(x as int),
        DimensionValue::U64(x) => Some(x as int),
        DimensionValue::I8(x) => Some(x as int),
        DimensionValue::I16(x) => Some(x as int),
        DimensionValue::I32(x) => Some(x as int),
        DimensionValue::I64(x) => Some(x as int),
        DimensionValue::F32(b) => f32_trunc(b),
        DimensionValue::F64(b) => f64_trunc(b),
        DimensionValue::A2U8(_) => None,
    }
}

/// Reads the value of a dimension of type `t` at byte offset `offset` of a
/// point's extra-byte blob. Fails with [`Error::TruncatedBuffer`], touching
/// nothing out of bounds, whenever the blob is too short for the read —
/// whether the offset itself or only the value's last byte lies past the end.
pub fn read_extra(bytes: &[u8], offset: usize, t: ExtraDimTypes) -> (r: Result<
    DimensionValue,
    Error,
>)
    ensures
        offset + t.read_width() <= bytes@.len() ==> r == Ok::<DimensionValue, Error>(
            decode_at(bytes@, offset as int, t),
        ),
        offset + t.read_width() > bytes@.len() ==> r == Err::<DimensionValue, Error>(
            Error::TruncatedBuffer,
        ),
{
    let n = bytes.len();
    match t {
        ExtraDimTypes::U8 => {
            if offset >= n {
                Err(Error::TruncatedBuffer)
            } else {
                Ok(DimensionValue::U8(bytes[offset]))
            }
        },
        ExtraDimTypes::I8 => {
            if offset >= n {
                Err(Error::TruncatedBuffer)
            } else {
                Ok(DimensionValue::I8(reinterpret_i8(bytes[offset])))
            }
        },
        ExtraDimTypes::U16 => {
            if n < 2 || offset > n - 2 {
                Err(Error::TruncatedBuffer)
            } else {
                Ok(DimensionValue::U16(read_u16_le(bytes, offset)))
            }
        },
        ExtraDimTypes::I16 => {
            if n < 2 || offset > n - 2 {
                Err(Error::TruncatedBuffer)
            } else {
                Ok(DimensionValue::I16(reinterpret_i16(read_u16_le(bytes, offset))))
            }
        },
        ExtraDimTypes::U32 => {
            if n < 4 || offset > n - 4 {
                Err(Error::TruncatedBuffer)
            } else {
                Ok(DimensionValue::U32(read_u32_le(bytes, offset)))
            }
        },
        ExtraDimTypes::I32 => {
            if n < 4 || offset > n - 4 {
                Err(Error::TruncatedBuffer)
            } else {
                Ok(DimensionValue::I32(reinterpret_i32(read_u32_le(bytes, offset))))
            }
        },
        ExtraDimTypes::U64 => {
            if n < 8 || offset > n - 8 {
                Err(Error::TruncatedBuffer)
            } else {
                Ok(DimensionValue::U64(read_u64_le(bytes, offset)))
            }
        },
        ExtraDimTypes::I64 => {
            if n < 8 || offset > n - 8 {
                Err(Error::TruncatedBuffer)
            } else {
                Ok(DimensionValue::I64(reinterpret_i64(read_u64_le(bytes, offset))))
            }
        },
        ExtraDimTypes::F32 => {
            if n < 4 || offset > n - 4 {
                Err(Error::TruncatedBuffer)
            } else {
                Ok(DimensionValue::F32(read_u32_le(bytes, offset)))
            }
        },
        ExtraDimTypes::F64 => {
            if n < 8 || offset > n - 8 {
                Err(Error::TruncatedBuffer)
            } else {
                Ok(DimensionValue::F64(read_u64_le(bytes, offset)))
            }
        },
        ExtraDimTypes::A2U8 => {
            if n < 2 || offset > n - 2 {
                Err(Error::TruncatedBuffer)
            } else {
                Ok(DimensionValue::A2U8((bytes[offset], bytes[offset + 1])))
            }
        },
    }
}

/// Copies `n` bytes of `src` starting at `at` into a fresh vector.
fn take_bytes(src: &[u8], at: usize, n: usize) -> (r: Vec<u8>)
    requires
        at + n <= src@.len(),
    ensures
        r@ == src@.subrange(at as int, at + n),
{
    let mut out: Vec<u8> = Vec::new();
    let mut i: usize = 0;
    let m = src.len();
    while i < n
        invariant
            i <= n,
            at + n <= m == src@.len(),
            out@ == src@.subrange(at as int, at + i),
        decreases n - i,
    {
        out.push(src[at + i]);
        proof {
            assert(out@ =~= src@.subrange(at as int, at + i + 1));
        }
        i = i + 1;
    }
    out
}

/// The fixed 192-byte on-disk descriptor of one extra dimension. Only the
/// type code and the name are interpreted; every other block is retained
/// verbatim.
#[derive(Clone, Debug, PartialEq)]
pub struct RawExtraByteStruct {
    /// Reserved bytes (2).
    pub reserved: Vec<u8>,
    /// The 1-byte code of the dimension's primitive type.
    pub data_type: u8,
    /// Options bitfield, retained uninterpreted.
    pub options: u8,
    /// The dimension's name: up to 32 bytes, terminated by the first zero.
    pub name: Vec<u8>,
    /// Unused bytes (4).
    pub unused: Vec<u8>,
    /// No-data block (24 bytes), retained uninterpreted.
    pub no_data: Vec<u8>,
    /// Minimum block (24 bytes), retained uninterpreted.
    pub min: Vec<u8>,
    /// Maximum block (24 bytes), retained uninterpreted.
    pub max: Vec<u8>,
    /// Scale block (24 bytes), retained uninterpreted.
    pub scale: Vec<u8>,
    /// Offset block (24 bytes), retained uninterpreted.
    pub offset: Vec<u8>,
    /// Description (32 bytes), retained uninterpreted.
    pub description: Vec<u8>,
}

/// The bytes of `s.name` up to, and not including, its first zero byte; the
/// whole field when no byte is zero.
pub open spec fn trim_name(s: Seq<u8>) -> Seq<u8>
    decreases s.len(),
{
    if s.len() == 0 {
        s
    } else if s[0] == 0 {
        Seq::empty()
    } else {
        seq![s[0]] + trim_name(s.drop_first())
    }
}

/// Whether the name decodes as restricted (ASCII) text: every byte before
/// the terminator is below 128.
pub open spec fn name_ok(s: Seq<u8>) -> bool {
    forall|i: int| 0 <= i < trim_name(s).len() ==> trim_name(s)[i] < 128
}

/// `trim_name` agrees with the scanned prefix: as long as no zero byte has
/// been seen, the trimmed name extends the prefix, and it ends exactly at the
/// first zero byte (or spans everything when there is none).
proof fn lemma_trim_prefix(s: Seq<u8>, i: int)
    requires
        0 <= i <= s.len(),
        forall|j: int| 0 <= j < i ==> s[j] != 0,
    ensures
        trim_name(s).len() >= i,
        forall|j: int| 0 <= j < i ==> trim_name(s)[j] == s[j],
        i < s.len() && s[i] == 0 ==> trim_name(s) == s.subrange(0, i),
        i == s.len() ==> trim_name(s) == s,
    decreases i,
{
    if i == 0 {
        if 0 < s.len() && s[0] == 0 {
            assert(trim_name(s) =~= s.subrange(0, 0));
        }
    } else {
        let t = s.drop_first();
        lemma_trim_prefix(t, i - 1);
        assert(trim_name(s) == seq![s[0]] + trim_name(t));
        assert forall|j: int| 0 <= j < i implies trim_name(s)[j] == s[j] by {
            if j == 0 {
                assert(trim_name(s)[0] == s[0]);
            } else {
                assert(trim_name(s)[j] == trim_name(t)[j - 1]);
                assert(t[j - 1] == s[j]);
            }
        }
        if i < s.len() && s[i] == 0 {
            assert(t[i - 1] == 0);
            assert(trim_name(t) == t.subrange(0, i - 1));
            assert(trim_name(s) =~= s.subrange(0, i));
        }
        if i == s.len() {
            assert(trim_name(t) == t);
            assert(trim_name(s) =~= s);
        }
    }
}

/// Whether the descriptor's fields are exactly the fixed-layout slices of
/// the 192 bytes: 2 reserved, 1 type code, 1 options, 32 name, 4 unused,
/// 24 each of no-data, min, max, scale and offset, and 32 description.
pub open spec fn descriptor_encodes(s: RawExtraByteStruct, bytes: Seq<u8>) -> bool {
    &&& bytes.len() == 192
    &&& s.reserved@ == bytes.subrange(0, 2)
    &&& s.data_type == bytes[2]
    &&& s.options == bytes[3]
    &&& s.name@ == bytes.subrange(4, 36)
    &&& s.unused@ == bytes.subrange(36, 40)
    &&& s.no_data@ == bytes.subrange(40, 64)
    &&& s.min@ == bytes.subrange(64, 88)
    &&& s.max@ == bytes.subrange(88, 112)
    &&& s.scale@ == bytes.subrange(112, 136)
    &&& s.offset@ == bytes.subrange(136, 160)
    &&& s.description@ == bytes.subrange(160, 192)
}

impl RawExtraByteStruct {
    /// Field lengths match the fixed layout.
    pub open spec fn wf(self) -> bool {
        &&& self.reserved@.len() == 2
        &&& self.name@.len() == 32
        &&& self.unused@.len() == 4
        &&& self.no_data@.len() == 24
        &&& self.min@.len() == 24
        &&& self.max@.len() == 24
        &&& self.scale@.len() == 24
        &&& self.offset@.len() == 24
        &&& self.description@.len() == 32
    }

    /// Decodes one descriptor from the first 192 bytes of `source`; fails
    /// with [`Error::MalformedDescriptor`] when fewer remain.
    pub fn read_from(source: &[u8]) -> (r: Result<RawExtraByteStruct, Error>)
        ensures
            source@.len() < 192 ==> r == Err::<RawExtraByteStruct, Error>(
                Error::MalformedDescriptor,
            ),
            source@.len() >= 192 ==> (r matches Ok(s) && s.wf() && descriptor_encodes(
                s,
                source@.subrange(0, 192),
            )),
    {
        let n = source.len();
        if n < 192 {
            return Err(Error::MalformedDescriptor);
        }
        let ebs = RawExtraByteStruct {
            reserved: take_bytes(source, 0, 2),
            data_type: source[2],
            options: source[3],
            name: take_bytes(source, 4, 32),
            unused: take_bytes(source, 36, 4),
            no_data: take_bytes(source, 40, 24),
            min: take_bytes(source, 64, 24),
            max: take_bytes(source, 88, 24),
            scale: take_bytes(source, 112, 24),
            offset: take_bytes(source, 136, 24),
            description: take_bytes(source, 160, 32),
        };
        proof {
            let b = source@.subrange(0, 192);
            assert(ebs.reserved@ =~= b.subrange(0, 2));
            assert(ebs.name@ =~= b.subrange(4, 36));
            assert(ebs.unused@ =~= b.subrange(36, 40));
            assert(ebs.no_data@ =~= b.subrange(40, 64));
            assert(ebs.min@ =~= b.subrange(64, 88));
            assert(ebs.max@ =~= b.subrange(88, 112));
            assert(ebs.scale@ =~= b.subrange(112, 136));
            assert(ebs.offset@ =~= b.subrange(136, 160));
            assert(ebs.description@ =~= b.subrange(160, 192));
        }
        Ok(ebs)
    }

    /// Encodes the descriptor back into its fixed 192-byte layout.
    pub fn to_bytes(&self) -> (r: Vec<u8>)
        requires
            self.wf(),
        ensures
            r@.len() == 192,
            descriptor_encodes(*self, r@),
    {
        let mut out: Vec<u8> = Vec::with_capacity(192);
        out.extend_from_slice(self.reserved.as_slice());
        out.push(self.data_type);
        out.push(self.options);
        out.extend_from_slice(self.name.as_slice());
        out.extend_from_slice(self.unused.as_slice());
        out.extend_from_slice(self.no_data.as_slice());
        out.extend_from_slice(self.min.as_slice());
        out.extend_from_slice(self.max.as_slice());
        out.extend_from_slice(self.scale.as_slice());
        out.extend_from_slice(self.offset.as_slice());
        out.extend_from_slice(self.description.as_slice());
        proof {
            assert(self.reserved@ =~= out@.subrange(0, 2));
            assert(self.name@ =~= out@.subrange(4, 36));
            assert(self.unused@ =~= out@.subrange(36, 40));
            assert(self.no_data@ =~= out@.subrange(40, 64));
            assert(self.min@ =~= out@.subrange(64, 88));
            assert(self.max@ =~= out@.subrange(88, 112));
            assert(self.scale@ =~= out@.subrange(112, 136));
            assert(self.offset@ =~= out@.subrange(136, 160));
            assert(self.description@ =~= out@.subrange(160, 192));
        }
        out
    }

    /// The dimension's name, trimmed at its first zero byte; fails with
    /// [`Error::MalformedDescriptor`] when the name is not restricted (ASCII)
    /// text.
    pub fn name(&self) -> (r: Result<Vec<u8>, Error>)
        requires
            self.wf(),
        ensures
            name_ok(self.name@) ==> (r matches Ok(v) && v@ == trim_name(self.name@)),
            !name_ok(self.name@) ==> r == Err::<Vec<u8>, Error>(Error::MalformedDescriptor),
    {
        let mut out: Vec<u8> = Vec::new();
        let mut i: usize = 0;
        let n = self.name.len();
        while i < n
            invariant
                i <= n,
                n == self.name@.len(),
                forall|j: int| 0 <= j < i ==> self.name@[j] != 0,
                forall|j: int| 0 <= j < i ==> self.name@[j] < 128,
                out@ == self.name@.subrange(0, i as int),
            decreases n - i,
        {
            let b = self.name[i];
            if b == 0 {
                proof {
                    lemma_trim_prefix(self.name@, i as int);
                }
                return Ok(out);
            }
            if b >= 128 {
                proof {
                    lemma_trim_prefix(self.name@, i + 1);
                    assert(trim_name(self.name@)[i as int] == b);
                }
                return Err(Error::MalformedDescriptor);
            }
            out.push(b);
            proof {
                assert(out@ =~= self.name@.subrange(0, i + 1));
            }
            i = i + 1;
        }
        proof {
            lemma_trim_prefix(self.name@, n as int);
        }
        Ok(out)
    }

    /// The primitive type the descriptor's type code denotes.
    pub fn data_type(&self) -> (r: ExtraDimTypes)
        ensures
            r == spec_value_to_type(self.data_type),
    {
        value_to_type(self.data_type)
    }
}

impl Default for RawExtraByteStruct {
    /// An all-zero descriptor of the fixed layout.
    fn default() -> (r: RawExtraByteStruct)
        ensures
            r.wf(),
            r.data_type == 0,
            r.options == 0,
            forall|i: int| 0 <= i < r.name@.len() ==> r.name@[i] == 0,
    {
        RawExtraByteStruct {
            reserved: vec![0u8, 0u8],
            data_type: 0,
            options: 0,
            name: vec![0u8; 32],
            unused: vec![0u8; 4],
            no_data: vec![0u8; 24],
            min: vec![0u8; 24],
            max: vec![0u8; 24],
            scale: vec![0u8; 24],
            offset: vec![0u8; 24],
            description: vec![0u8; 32],
        }
    }
}

/// Law: decoding a descriptor's 192 encoded bytes reproduces it — any two
/// descriptors that encode to the same bytes agree on every field, the name
/// and the primitive type in particular.
pub proof fn lemma_descriptor_round_trip(
    orig: RawExtraByteStruct,
    dec: RawExtraByteStruct,
    bytes: Seq<u8>,
)
    requires
        descriptor_encodes(orig, bytes),
        descriptor_encodes(dec, bytes),
    ensures
        dec.reserved@ == orig.reserved@,
        dec.data_type == orig.data_type,
        dec.options == orig.options,
        dec.name@ == orig.name@,
        trim_name(dec.name@) == trim_name(orig.name@),
        spec_value_to_type(dec.data_type) == spec_value_to_type(orig.data_type),
        dec.unused@ == orig.unused@,
        dec.no_data@ == orig.no_data@,
        dec.min@ == orig.min@,
        dec.max@ == orig.max@,
        dec.scale@ == orig.scale@,
        dec.offset@ == orig.offset@,
        dec.description@ == orig.description@,
{
}

/// Compares two byte strings for equality.
fn bytes_eq(a: &[u8], b: &[u8]) -> (r: bool)
    ensures
        r == (a@ == b@),
{
    let n = a.len();
    if n != b.len() {
        return false;
    }
    let mut i: usize = 0;
    while i < n
        invariant
            i <= n,
            n == a@.len() == b@.len(),
            forall|j: int| 0 <= j < i ==> a@[j] == b@[j],
        decreases n - i,
    {
        if a[i] != b[i] {
            return false;
        }
        i = i + 1;
    }
    proof {
        assert(a@ =~= b@);
    }
    true
}

/// The index of the record the schema is read from: the last record whose
/// identifier is the reserved extra-bytes id. Keeping the last match (not the
/// first) is a deliberate policy preserved for compatibility with existing
/// data.
pub open spec fn last_match(vlrs: Seq<Vlr>) -> Option<int>
    decreases vlrs.len(),
{
    if vlrs.len() == 0 {
        None
    } else if vlrs.last().record_id == EXTRA_BYTES_RECORD_ID {
        Some(vlrs.len() - 1)
    } else {
        last_match(vlrs.drop_last())
    }
}

/// Law: schema selection is last-wins. When some record carries the reserved
/// identifier, `last_match` picks one that does, and no later record does;
/// when none does, it picks nothing.
pub proof fn lemma_last_match(vlrs: Seq<Vlr>)
    ensures
        match last_match(vlrs) {
            Some(j) => 0 <= j < vlrs.len() && vlrs[j].record_id == EXTRA_BYTES_RECORD_ID
                && (forall|k: int|
                j < k < vlrs.len() ==> vlrs[k].record_id != EXTRA_BYTES_RECORD_ID),
            None => forall|k: int|
                0 <= k < vlrs.len() ==> vlrs[k].record_id != EXTRA_BYTES_RECORD_ID,
        },
    decreases vlrs.len(),
{
    if vlrs.len() > 0 {
        let t = vlrs.drop_last();
        if vlrs.last().record_id != EXTRA_BYTES_RECORD_ID {
            lemma_last_match(t);
            assert(forall|k: int| 0 <= k < t.len() ==> #[trigger] t[k] == vlrs[k]);
            match last_match(t) {
                Some(j) => {
                    assert(t[j].record_id == EXTRA_BYTES_RECORD_ID);
                    assert forall|k: int|
                        j < k < vlrs.len() implies vlrs[k].record_id
                        != EXTRA_BYTES_RECORD_ID by {
                        if k < vlrs.len() - 1 {
                            assert(t[k] == vlrs[k]);
                        } else {
                            assert(vlrs[k] == vlrs.last());
                        }
                    }
                },
                None => {
                    assert forall|k: int|
                        0 <= k < vlrs.len() implies vlrs[k].record_id
                        != EXTRA_BYTES_RECORD_ID by {
                        if k < vlrs.len() - 1 {
                            assert(t[k] == vlrs[k]);
                        } else {
                            assert(vlrs[k] == vlrs.last());
                        }
                    }
                },
            }
        }
    }
}

/// Finds the side record carrying the extra-dimension schema: the last one
/// with the reserved identifier, per [`last_match`].
fn find_extra_bytes_vlr(vlrs: &Vec<Vlr>) -> (r: Option<usize>)
    ensures
        match r {
            None => last_match(vlrs@) is None,
            Some(u) => u < vlrs@.len() && last_match(vlrs@) == Some(u as int),
        },
{
    let mut eb_vlr: Option<usize> = None;
    let mut i: usize = 0;
    let n = vlrs.len();
    while i < n
        invariant
            i <= n,
            n == vlrs@.len(),
            match eb_vlr {
                None => last_match(vlrs@.take(i as int)) is None,
                Some(u) => u < i && last_match(vlrs@.take(i as int)) == Some(u as int),
            },
        decreases n - i,
    {
        proof {
            assert(vlrs@.take(i + 1).drop_last() =~= vlrs@.take(i as int));
            assert(vlrs@.take(i + 1).last() == vlrs@[i as int]);
        }
        if vlrs[i].record_id == EXTRA_BYTES_RECORD_ID {
            eb_vlr = Some(i);
        }
        i = i + 1;
    }
    proof {
        assert(vlrs@.take(n as int) =~= vlrs@);
    }
    eb_vlr
}

/// Whether `p` holds exactly the descriptors packed into `data`: as many as
/// whole 192-byte records fit (trailing bytes that do not fill one are
/// ignored), each decoded from its slice, in order.
pub open spec fn parser_from_payload(p: ExtraBytesParser, data: Seq<u8>) -> bool {
    &&& p.ebss@.len() == data.len() as int / 192
    &&& forall|i: int|
        0 <= i < p.ebss@.len() ==> descriptor_encodes(
            #[trigger] p.ebss@[i],
            data.subrange(192 * i, 192 * i + 192),
        )
}

/// The primitive type of the dimension a descriptor declares.
pub open spec fn dim_type(d: RawExtraByteStruct) -> ExtraDimTypes {
    spec_value_to_type(d.data_type)
}

/// What scanning a schema for a name turns up.
pub enum DimScan {
    /// A descriptor at or before the first match has a name that is not
    /// restricted text.
    Malformed,
    /// No descriptor's name matches.
    NotFound,
    /// The first matching descriptor: its index, and the byte offset of its
    /// value in the packed blob — the sum of the layout widths of all
    /// descriptors before it.
    Found {
        /// Index of the matching descriptor.
        idx: int,
        /// Byte offset of its value.
        off: int,
    },
}

/// Scans descriptors in declared order for the first whose (trimmed) name
/// equals `name`, accumulating the byte offset; stops with `Malformed` at the
/// first descriptor whose name is not restricted text.
pub open spec fn scan_dims(ebss: Seq<RawExtraByteStruct>, name: Seq<u8>) -> DimScan
    decreases ebss.len(),
{
    if ebss.len() == 0 {
        DimScan::NotFound
    } else if !name_ok(ebss[0].name@) {
        DimScan::Malformed
    } else if trim_name(ebss[0].name@) == name {
        DimScan::Found { idx: 0, off: 0 }
    } else {
        match scan_dims(ebss.drop_first(), name) {
            DimScan::Found { idx, off } => DimScan::Found {
                idx: idx + 1,
                off: off + dim_type(ebss[0]).width(),
            },
            r => r,
        }
    }
}

/// The sum of the layout widths of the first `i` descriptors.
pub open spec fn offset_sum(ebss: Seq<RawExtraByteStruct>, i: int) -> int
    decreases i,
{
    if i <= 0 {
        0
    } else {
        offset_sum(ebss, i - 1) + dim_type(ebss[i - 1]).width()
    }
}

proof fn lemma_offset_sum_shift(ebss: Seq<RawExtraByteStruct>, i: int)
    requires
        ebss.len() > 0,
        0 <= i <= ebss.len() - 1,
    ensures
        offset_sum(ebss, i + 1) == dim_type(ebss[0]).width() + offset_sum(ebss.drop_first(), i),
    decreases i,
{
    let t = ebss.drop_first();
    if i == 0 {
        assert(offset_sum(ebss, 1) == offset_sum(ebss, 0) + dim_type(ebss[0]).width());
        assert(offset_sum(ebss, 0) == 0);
        assert(offset_sum(t, 0) == 0);
    } else {
        lemma_offset_sum_shift(ebss, i - 1);
        assert(t[i - 1] == ebss[i]);
        assert(offset_sum(ebss, i + 1) == offset_sum(ebss, i) + dim_type(ebss[i]).width());
        assert(offset_sum(t, i) == offset_sum(t, i - 1) + dim_type(t[i - 1]).width());
    }
}

/// Widths are at most 8, so the offset of descriptor `i` is at most `8 * i`.
proof fn lemma_offset_sum_bound(ebss: Seq<RawExtraByteStruct>, i: int)
    requires
        0 <= i,
    ensures
        0 <= offset_sum(ebss, i) <= 8 * i,
    decreases i,
{
    if i > 0 {
        lemma_offset_sum_bound(ebss, i - 1);
    }
}

/// Law: resolution is first-match at the summed offset. A `Found` names the
/// first descriptor whose name equals the request, every descriptor before it
/// has a well-formed, non-matching name, and the offset is the sum of the
/// layout widths of all earlier descriptors. `NotFound` means every name is
/// well-formed and none matches; `Malformed` means some ill-named descriptor
/// precedes any match.
pub proof fn lemma_scan_dims_characterization(ebss: Seq<RawExtraByteStruct>, name: Seq<u8>)
    ensures
        match scan_dims(ebss, name) {
            DimScan::Found { idx, off } => 0 <= idx < ebss.len() && name_ok(ebss[idx].name@)
                && trim_name(ebss[idx].name@) == name && (forall|j: int|
                0 <= j < idx ==> name_ok(#[trigger] ebss[j].name@) && trim_name(ebss[j].name@)
                    != name) && off == offset_sum(ebss, idx),
            DimScan::NotFound => forall|j: int|
                0 <= j < ebss.len() ==> name_ok(#[trigger] ebss[j].name@) && trim_name(
                    ebss[j].name@,
                ) != name,
            DimScan::Malformed => exists|j: int|
                0 <= j < ebss.len() && !name_ok(#[trigger] ebss[j].name@) && (forall|k: int|
                    0 <= k < j ==> name_ok(#[trigger] ebss[k].name@) && trim_name(ebss[k].name@)
                        != name),
        },
    decreases ebss.len(),
{
    if ebss.len() > 0 {
        let t = ebss.drop_first();
        if !name_ok(ebss[0].name@) {
            assert(scan_dims(ebss, name) is Malformed);
            assert(0 <= 0 < ebss.len() && !name_ok(ebss[0].name@) && (forall|k: int|
                0 <= k < 0 ==> name_ok(#[trigger] ebss[k].name@) && trim_name(ebss[k].name@)
                    != name));
        } else if trim_name(ebss[0].name@) == name {
            assert(offset_sum(ebss, 0) == 0);
        } else {
            lemma_scan_dims_characterization(t, name);
            assert(forall|j: int| 0 <= j < t.len() ==> #[trigger] t[j] == ebss[j + 1]);
            match scan_dims(t, name) {
                DimScan::Found { idx, off } => {
                    lemma_offset_sum_shift(ebss, idx);
                    assert(ebss[idx + 1] == t[idx]);
                    assert forall|j: int|
                        0 <= j < idx + 1 implies name_ok(#[trigger] ebss[j].name@) && trim_name(
                        ebss[j].name@,
                    ) != name by {
                        if j > 0 {
                            assert(ebss[j] == t[j - 1]);
                        }
                    }
                },
                DimScan::NotFound => {
                    assert forall|j: int|
                        0 <= j < ebss.len() implies name_ok(#[trigger] ebss[j].name@) && trim_name(
                        ebss[j].name@,
                    ) != name by {
                        if j > 0 {
                            assert(ebss[j] == t[j - 1]);
                        }
                    }
                },
                DimScan::Malformed => {
                    let j = choose|j: int|
                        0 <= j < t.len() && !name_ok(#[trigger] t[j].name@) && (forall|k: int|
                            0 <= k < j ==> name_ok(#[trigger] t[k].name@) && trim_name(t[k].name@)
                                != name);
                    assert(!name_ok(ebss[j + 1].name@));
                    assert forall|k: int|
                        0 <= k < j + 1 implies name_ok(#[trigger] ebss[k].name@) && trim_name(
                        ebss[k].name@,
                    ) != name by {
                        if k > 0 {
                            assert(ebss[k] == t[k - 1]);
                        }
                    }
                    assert(0 <= j + 1 < ebss.len() && !name_ok(ebss[j + 1].name@) && (forall|
                        k: int,
                    |
                        0 <= k < j + 1 ==> name_ok(#[trigger] ebss[k].name@) && trim_name(
                            ebss[k].name@,
                        ) != name));
                },
            }
        }
    }
}

/// Parses and holds the ordered extra-dimension schema of a file.
#[derive(Clone, Debug)]
pub struct ExtraBytesParser {
    /// The schema: one descriptor per extra dimension, in declared order,
    /// which fixes the packed byte layout of every point's extra-byte blob.
    pub ebss: Vec<RawExtraByteStruct>,
}

impl ExtraBytesParser {
    /// Every descriptor has the fixed field layout, and the collection is
    /// small enough that all offsets stay within the machine's address range
    /// (a parser built by [`Self::from_vlrs`] always is, since 192 payload
    /// bytes back each descriptor).
    pub open spec fn wf(self) -> bool {
        &&& forall|i: int| 0 <= i < self.ebss@.len() ==> (#[trigger] self.ebss@[i]).wf()
        &&& self.ebss@.len() <= usize::MAX as int / 192
    }

    /// Builds the schema from a side-record collection: takes the last
    /// record carrying the reserved identifier, decodes as many whole
    /// 192-byte descriptors as fit in its payload (trailing bytes are
    /// ignored), in order. `None` — a normal state, not an error — when no
    /// record matches.
    pub fn from_vlrs(vlrs: &Vec<Vlr>) -> (r: Option<ExtraBytesParser>)
        ensures
            match last_match(vlrs@) {
                None => r is None,
                Some(j) => r matches Some(p) && p.wf() && parser_from_payload(p, vlrs@[j].data@),
            },
    {
        let idx = match find_extra_bytes_vlr(vlrs) {
            Some(i) => i,
            None => {
                return None;
            },
        };
        let data: &Vec<u8> = &vlrs[idx].data;
        let len = data.len();
        let num_ebs = len / 192;
        proof {
            vstd::arithmetic::div_mod::lemma_fundamental_div_mod(data@.len() as int, 192);
        }
        let mut ebs_vec: Vec<RawExtraByteStruct> = Vec::new();
        let mut i: usize = 0;
        while i < num_ebs
            invariant
                i <= num_ebs,
                idx < vlrs@.len(),
                data@ == vlrs@[idx as int].data@,
                num_ebs == data@.len() as int / 192,
                192 * num_ebs <= data@.len() <= usize::MAX,
                ebs_vec@.len() == i,
                forall|k: int|
                    0 <= k < i ==> (#[trigger] ebs_vec@[k]).wf() && descriptor_encodes(
                        ebs_vec@[k],
                        data@.subrange(192 * k, 192 * k + 192),
                    ),
            decreases num_ebs - i,
        {
            proof {
                assert(192 * (i + 1) <= 192 * num_ebs);
            }
            let start = 192 * i;
            let part: &[u8] = &data.as_slice()[start..start + 192];
            proof {
                assert(part@ == data@.subrange(192 * i, 192 * i + 192));
                assert(part@.subrange(0, 192) =~= part@);
            }
            let e = match RawExtraByteStruct::read_from(part) {
                Ok(e) => e,
                Err(_) => {
                    proof {
                        assert(false);
                    }
                    return None;
                },
            };
            ebs_vec.push(e);
            i = i + 1;
        }
        proof {
            vstd::arithmetic::div_mod::lemma_div_is_ordered(
                data@.len() as int,
                usize::MAX as int,
                192,
            );
        }
        Some(ExtraBytesParser { ebss: ebs_vec })
    }

    /// Resolves a dimension name against the schema: scans descriptors in
    /// declared order, summing layout widths, and stops at the first whose
    /// name equals `name` byte for byte (no normalization). Returns its index
    /// and the offset accumulated before it, or `None` with the total offset
    /// when no name matches; fails when a descriptor at or before the first
    /// match has a name that is not restricted text.
    pub fn offset_of_dim(&self, name: &str) -> (r: Result<(Option<usize>, u64), Error>)
        requires
            self.wf(),
        ensures
            match scan_dims(self.ebss@, name.spec_bytes()) {
                DimScan::Malformed => r == Err::<(Option<usize>, u64), Error>(
                    Error::MalformedDescriptor,
                ),
                DimScan::NotFound => r matches Ok((o, total)) && o is None && total
                    == offset_sum(self.ebss@, self.ebss@.len() as int),
                DimScan::Found { idx, off } => r matches Ok((o, ofs)) && o == Some(idx as usize)
                    && ofs == off,
            },
    {
        let query: &[u8] = name.as_bytes();
        let mut offset: u64 = 0;
        let mut i: usize = 0;
        let n = self.ebss.len();
        proof {
            lemma_scan_dims_characterization(self.ebss@, name.spec_bytes());
        }
        while i < n
            invariant
                i <= n,
                n == self.ebss@.len(),
                self.wf(),
                query@ == name.spec_bytes(),
                offset == offset_sum(self.ebss@, i as int),
                forall|j: int|
                    0 <= j < i ==> name_ok(#[trigger] self.ebss@[j].name@) && trim_name(
                        self.ebss@[j].name@,
                    ) != name.spec_bytes(),
            decreases n - i,
        {
            proof {
                lemma_scan_dims_characterization(self.ebss@, name.spec_bytes());
                lemma_offset_sum_bound(self.ebss@, i as int);
            }
            let ebs = &self.ebss[i];
            let nm = match ebs.name() {
                Ok(v) => v,
                Err(e) => {
                    return Err(e);
                },
            };
            if bytes_eq(nm.as_slice(), query) {
                return Ok((Some(i), offset));
            }
            let w = ebs.data_type().size();
            proof {
                lemma_offset_sum_bound(self.ebss@, i + 1);
            }
            offset = offset + (w as u64);
            i = i + 1;
        }
        proof {
            lemma_scan_dims_characterization(self.ebss@, name.spec_bytes());
        }
        Ok((None, offset))
    }

    /// Reads the value of the dimension called `name` from a point's
    /// extra-byte blob: resolves the name per [`Self::offset_of_dim`], then
    /// decodes the value at the resolved offset per [`decode_at`]. A name
    /// absent from the schema fails with [`Error::DimensionNotFound`] before
    /// any buffer read; a blob too short for the resolved field fails with
    /// [`Error::TruncatedBuffer`].
    pub fn get_field(&self, bytes: &Vec<u8>, name: &str) -> (r: Result<DimensionValue, Error>)
        requires
            self.wf(),
        ensures
            match scan_dims(self.ebss@, name.spec_bytes()) {
                DimScan::Malformed => r == Err::<DimensionValue, Error>(
                    Error::MalformedDescriptor,
                ),
                DimScan::NotFound => r matches Err(e) && e matches Error::DimensionNotFound(s)
                    && s@ == name@,
                DimScan::Found { idx, off } => ({
                    let t = dim_type(self.ebss@[idx]);
                    if off + t.read_width() <= bytes@.len() {
                        r == Ok::<DimensionValue, Error>(decode_at(bytes@, off, t))
                    } else {
                        r == Err::<DimensionValue, Error>(Error::TruncatedBuffer)
                    }
                }),
            },
    {
        let (found, offset) = match self.offset_of_dim(name) {
            Ok(p) => p,
            Err(e) => {
                return Err(e);
            },
        };
        let idx = match found {
            Some(i) => i,
            None => {
                return Err(Error::DimensionNotFound(name.to_owned()));
            },
        };
        proof {
            lemma_scan_dims_characterization(self.ebss@, name.spec_bytes());
            lemma_offset_sum_bound(self.ebss@, idx as int);
            vstd::arithmetic::div_mod::lemma_fundamental_div_mod(usize::MAX as int, 192);
        }
        let t = self.ebss[idx].data_type();
        read_extra(bytes.as_slice(), offset as usize, t)
    }

    /// Reads the dimension `name` per [`Self::get_field`] and converts the
    /// decoded value to `T` per [`cast_extra`]; a value not representable in
    /// `T` fails with [`Error::CastError`], and every resolution or decoding
    /// failure propagates unchanged.
    pub fn get_field_as<T: CastTarget>(&self, bytes: &Vec<u8>, name: &str) -> (r: Result<T, Error>)
        requires
            self.wf(),
        ensures
            match scan_dims(self.ebss@, name.spec_bytes()) {
                DimScan::Malformed => r == Err::<T, Error>(Error::MalformedDescriptor),
                DimScan::NotFound => r matches Err(e) && e matches Error::DimensionNotFound(s)
                    && s@ == name@,
                DimScan::Found { idx, off } => ({
                    let t = dim_type(self.ebss@[idx]);
                    if off + t.read_width() <= bytes@.len() {
                        match dim_int_value(decode_at(bytes@, off, t)) {
                            None => r == Err::<T, Error>(Error::CastError),
                            Some(v) => if T::in_range(v) {
                                r matches Ok(x) && x.to_int() == v
                            } else {
                                r == Err::<T, Error>(Error::CastError)
                            },
                        }
                    } else {
                        r == Err::<T, Error>(Error::TruncatedBuffer)
                    }
                }),
            },
    {
        let value = match self.get_field(bytes, name) {
            Ok(v) => v,
            Err(e) => {
                return Err(e);
            },
        };
        match cast_extra::<T>(value) {
            Some(v) => Ok(v),
            None => Err(Error::CastError),
        }
    }
}

} // verus!
