//! Conversion of decoded extra-dimension values to integer types.
//!
//! Every scalar variant has an explicit, value-preserving conversion rule
//! into every supported target type; the two-byte array variant is excluded
//! from numeric conversion by construction.

use crate::floatbits::f32_to_int;
use crate::floatbits::f64_to_int;
use crate::floatbits::trunc_cutoff;
use crate::raw::extrabytes::dim_int_value;
use crate::raw::extrabytes::DimensionValue;
use vstd::prelude::*;

verus! {

/// An integer type a decoded extra-dimension value can be converted to.
/// Conversion is value-preserving: it succeeds exactly when the decoded
/// value — for float sources, the encoded value truncated toward zero — lies
/// in the target's range.
pub trait CastTarget: Sized {
    /// Whether the mathematical integer `v` is representable in this type.
    spec fn in_range(v: int) -> bool;

    /// The mathematical integer this value denotes.
    spec fn to_int(self) -> int;

    /// Every representable value lies within [`trunc_cutoff`].
    proof fn lemma_range_bounded(v: int)
        ensures
            Self::in_range(v) ==> -trunc_cutoff() <= v <= trunc_cutoff(),
    ;

    /// Converts an exact wide integer, failing when it is out of range.
    fn from_wide(v: i128) -> (r: Option<Self>)
        ensures
            match r {
                Some(x) => Self::in_range(v as int) && x.to_int() == v as int,
                None => !Self::in_range(v as int),
            },
    ;
}

impl CastTarget for u8 {
    open spec fn in_range(v: int) -> bool {
        0 <= v <= u8::MAX
    }

    open spec fn to_int(self) -> int {
        self as int
    }

    proof fn lemma_range_bounded(v: int) {
    }

    fn from_wide(v: i128) -> (r: Option<u8>) {
        if 0 <= v && v <= u8::MAX as i128 {
            Some(v as u8)
        } else {
            None
        }
    }
}

impl CastTarget for u16 {
    open spec fn in_range(v: int) -> bool {
        0 <= v <= u16::MAX
    }

    open spec fn to_int(self) -> int {
        self as int
    }

    proof fn lemma_range_bounded(v: int) {
    }

    fn from_wide(v: i128) -> (r: Option<u16>) {
        if 0 <= v && v <= u16::MAX as i128 {
            Some(v as u16)
        } else {
            None
        }
    }
}

impl CastTarget for u32 {
    open spec fn in_range(v: int) -> bool {
        0 <= v <= u32::MAX
    }

    open spec fn to_int(self) -> int {
        self as int
    }

    proof fn lemma_range_bounded(v: int) {
    }

    fn from_wide(v: i128) -> (r: Option<u32>) {
        if 0 <= v && v <= u32::MAX as i128 {
            Some(v as u32)
        } else {
            None
        }
    }
}

impl CastTarget for u64 {
    open spec fn in_range(v: int) -> bool {
        0 <= v <= u64::MAX
    }

    open spec fn to_int(self) -> int {
        self as int
    }

    proof fn lemma_range_bounded(v: int) {
    }

    fn from_wide(v: i128) -> (r: Option<u64>) {
        if 0 <= v && v <= u64::MAX as i128 {
            Some(v as u64)
        } else {
            None
        }
    }
}

impl CastTarget for i8 {
    open spec fn in_range(v: int) -> bool {
        i8::MIN <= v <= i8::MAX
    }

    open spec fn to_int(self) -> int {
        self as int
    }

    proof fn lemma_range_bounded(v: int) {
    }

    fn from_wide(v: i128) -> (r: Option<i8>) {
        if i8::MIN as i128 <= v && v <= i8::MAX as i128 {
            Some(v as i8)
        } else {
            None
        }
    }
}

impl CastTarget for i16 {
    open spec fn in_range(v: int) -> bool {
        i16::MIN <= v <= i16::MAX
    }

    open spec fn to_int(self) -> int {
        self as int
    }

    proof fn lemma_range_bounded(v: int) {
    }

    fn from_wide(v: i128) -> (r: Option<i16>) {
        if i16::MIN as i128 <= v && v <= i16::MAX as i128 {
            Some(v as i16)
        } else {
            None
        }
    }
}

impl CastTarget for i32 {
    open spec fn in_range(v: int) -> bool {
        i32::MIN <= v <= i32::MAX
    }

    open spec fn to_int(self) -> int {
        self as int
    }

    proof fn lemma_range_bounded(v: int) {
    }

    fn from_wide(v: i128) -> (r: Option<i32>) {
        if i32::MIN as i128 <= v && v <= i32::MAX as i128 {
            Some(v as i32)
        } else {
            None
        }
    }
}

impl CastTarget for i64 {
    open spec fn in_range(v: int) -> bool {
        i64::MIN <= v <= i64::MAX
    }

    open spec fn to_int(self) -> int {
        self as int
    }

    proof fn lemma_range_bounded(v: int) {
    }

    fn from_wide(v: i128) -> (r: Option<i64>) {
        if i64::MIN as i128 <= v && v <= i64::MAX as i128 {
            Some(v as i64)
        } else {
            None
        }
    }
}

/// Converts a decoded value to the integer type `T`, per
/// [`dim_int_value`]: succeeds exactly when the value denotes an integer in
/// `T`'s range. The array variant and non-finite floats convert to nothing.
pub fn cast_extra<T: CastTarget>(value: DimensionValue) -> (r: Option<T>)
    ensures
        match dim_int_value(value) {
            None => r is None,
            Some(v) => match r {
                Some(x) => T::in_range(v) && x.to_int() == v,
                None => !T::in_range(v),
            },
        },
{
    let wide: Option<i128> = match value {
        DimensionValue::U8(x) => Some(x as i128),
        DimensionValue::U16(x) => Some(x as i128),
        DimensionValue::U32(x) => Some(x as i128),
        DimensionValue::U64(x) => Some(x as i128),
        DimensionValue::I8(x) => Some(x as i128),
        DimensionValue::I16(x) => Some(x as i128),
        DimensionValue::I32(x) => Some(x as i128),
        DimensionValue::I64(x) => Some(x as i128),
        DimensionValue::F32(b) => f32_to_int(b),
        DimensionValue::F64(b) => f64_to_int(b),
        DimensionValue::A2U8(_) => None,
    };
    match wide {
        None => {
            proof {
                match dim_int_value(value) {
                    Some(v) => {
                        T::lemma_range_bounded(v);
                    },
                    None => {
                    },
                }
            }
            None
        },
        Some(w) => T::from_wide(w),
    }
}

} // verus!
