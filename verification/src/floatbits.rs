//! Truncation of IEEE 754 bit patterns to integers.
//!
//! Floating-point fields are carried through this crate as their raw bit
//! patterns. Converting such a field to an integer type means truncating the
//! encoded value toward zero; that is a pure function of the bits, worked out
//! here over plain integers: a finite value is `(2^p + fraction) * 2^e` for
//! the encoded fraction and (unbiased, fraction-shifted) exponent, and
//! truncating it scales the integer mantissa by the power of two.

use vstd::arithmetic::div_mod::lemma_basic_div;
use vstd::arithmetic::mul::lemma_mul_inequality;
use vstd::arithmetic::power2::lemma2_to64;
use vstd::arithmetic::power2::lemma2_to64_rest;
use vstd::arithmetic::power2::lemma_pow2_adds;
use vstd::arithmetic::power2::lemma_pow2_pos;
use vstd::arithmetic::power2::lemma_pow2_strictly_increases;
use vstd::arithmetic::power2::pow2;
use vstd::prelude::*;

verus! {

/// The magnitude `m * 2^e`, truncated toward zero; for negative `e` the
/// integer division discards the fractional part.
pub open spec fn scaled_trunc(m: nat, e: int) -> int {
    if e >= 0 {
        (m * pow2(e as nat)) as int
    } else {
        m as int / pow2((-e) as nat) as int
    }
}

/// The integer obtained by truncating the `f64` value encoded by `bits`
/// toward zero; `None` for an infinity or NaN (exponent field all ones).
/// Subnormals (exponent field zero) have magnitude below one and truncate to
/// zero.
pub open spec fn f64_trunc(bits: u64) -> Option<int> {
    let exp = (bits / 0x10_0000_0000_0000) % 0x800;
    let frac = bits % 0x10_0000_0000_0000;
    let neg = bits / 0x8000_0000_0000_0000 == 1;
    if exp == 0x7FF {
        None
    } else if exp == 0 {
        Some(0)
    } else {
        let mag = scaled_trunc((0x10_0000_0000_0000 + frac) as nat, exp - 1075);
        Some(if neg { -mag } else { mag })
    }
}

/// The integer obtained by truncating the `f32` value encoded by `bits`
/// toward zero; `None` for an infinity or NaN.
pub open spec fn f32_trunc(bits: u32) -> Option<int> {
    let exp = (bits / 0x80_0000) % 0x100;
    let frac = bits % 0x80_0000;
    let neg = bits / 0x8000_0000 == 1;
    if exp == 0xFF {
        None
    } else if exp == 0 {
        Some(0)
    } else {
        let mag = scaled_trunc((0x80_0000 + frac) as nat, exp - 150);
        Some(if neg { -mag } else { mag })
    }
}

/// Magnitudes above this never fit any integer type this crate casts to.
pub open spec fn trunc_cutoff() -> int {
    0xFFFF_FFFF_FFFF_FFFF
}

/// `2^e` as a machine word.
fn pow2_u64(e: u64) -> (r: u64)
    requires
        e <= 63,
    ensures
        r == pow2(e as nat),
{
    let mut r: u64 = 1;
    let mut i: u64 = 0;
    proof {
        lemma2_to64();
    }
    while i < e
        invariant
            i <= e <= 63,
            r == pow2(i as nat),
        decreases e - i,
    {
        proof {
            lemma_pow2_adds(i as nat, 1);
            lemma2_to64();
            if i as nat + 1 < 64 {
                lemma_pow2_strictly_increases(i as nat + 1, 64);
            }
            lemma_pow2_adds(63, 1);
        }
        r = r * 2;
        i = i + 1;
    }
    r
}

/// `2^e` as a double word, for exponents up to 64.
fn pow2_u128(e: u64) -> (r: u128)
    requires
        e <= 64,
    ensures
        r == pow2(e as nat),
{
    if e <= 63 {
        pow2_u64(e) as u128
    } else {
        proof {
            lemma_pow2_adds(63, 1);
            lemma2_to64();
        }
        0x1_0000_0000_0000_0000u128
    }
}

/// Truncates `±(m * 2^e)` toward zero. Returns the exact integer when its
/// magnitude is within [`trunc_cutoff`], and `None` when it is larger (such a
/// value fits no integer type this crate casts to).
pub fn trunc_scaled(neg: bool, m: u64, e: i64) -> (r: Option<i128>)
    requires
        1 <= m < 0x20_0000_0000_0000,
        -1100 <= e <= 1000,
    ensures
        ({
            let mag = scaled_trunc(m as nat, e as int);
            let v = if neg { -mag } else { mag };
            match r {
                Some(x) => x as int == v && -trunc_cutoff() <= v <= trunc_cutoff(),
                None => v < -trunc_cutoff() || v > trunc_cutoff(),
            }
        }),
{
    if e >= 0 {
        let eu = e as u64;
        if eu >= 65 {
            proof {
                lemma_pow2_strictly_increases(64, eu as nat);
                lemma2_to64();
                lemma_mul_inequality(1, m as int, pow2(eu as nat) as int);
            }
            None
        } else {
            let p = pow2_u128(eu);
            proof {
                lemma2_to64();
                if eu < 64 {
                    lemma_pow2_strictly_increases(eu as nat, 64);
                }
                assert((m as u128) * p <= 0x20_0000_0000_0000 * 0x1_0000_0000_0000_0000)
                    by (nonlinear_arith)
                    requires
                        m as u128 <= 0x20_0000_0000_0000,
                        p <= 0x1_0000_0000_0000_0000,
                ;
            }
            let mag: u128 = (m as u128) * p;
            if mag > 0xFFFF_FFFF_FFFF_FFFF {
                None
            } else {
                if neg {
                    Some(-(mag as i128))
                } else {
                    Some(mag as i128)
                }
            }
        }
    } else {
        let du = (-e) as u64;
        if du >= 53 {
            proof {
                lemma2_to64();
                lemma2_to64_rest();
                if du > 53 {
                    lemma_pow2_strictly_increases(53, du as nat);
                }
                lemma_basic_div(m as int, pow2(du as nat) as int);
            }
            Some(0)
        } else {
            let p = pow2_u64(du);
            proof {
                lemma_pow2_pos(du as nat);
            }
            let q = m / p;
            if neg {
                Some(-(q as i128))
            } else {
                Some(q as i128)
            }
        }
    }
}

/// Truncates the `f64` value encoded by `bits` toward zero, per
/// [`f64_trunc`]; `None` when the value is not finite or its magnitude is
/// beyond [`trunc_cutoff`].
pub fn f64_to_int(bits: u64) -> (r: Option<i128>)
    ensures
        match f64_trunc(bits) {
            None => r is None,
            Some(v) => if -trunc_cutoff() <= v <= trunc_cutoff() {
                r matches Some(x) && x as int == v
            } else {
                r is None
            },
        },
{
    let exp: u64 = (bits / 0x10_0000_0000_0000) % 0x800;
    let frac: u64 = bits % 0x10_0000_0000_0000;
    let neg: bool = bits / 0x8000_0000_0000_0000 == 1;
    if exp == 0x7FF {
        None
    } else if exp == 0 {
        Some(0)
    } else {
        let m: u64 = 0x10_0000_0000_0000 + frac;
        let e: i64 = (exp as i64) - 1075;
        trunc_scaled(neg, m, e)
    }
}

/// Truncates the `f32` value encoded by `bits` toward zero, per
/// [`f32_trunc`]; `None` when the value is not finite or its magnitude is
/// beyond [`trunc_cutoff`].
pub fn f32_to_int(bits: u32) -> (r: Option<i128>)
    ensures
        match f32_trunc(bits) {
            None => r is None,
            Some(v) => if -trunc_cutoff() <= v <= trunc_cutoff() {
                r matches Some(x) && x as int == v
            } else {
                r is None
            },
        },
{
    let exp: u32 = (bits / 0x80_0000) % 0x100;
    let frac: u32 = bits % 0x80_0000;
    let neg: bool = bits / 0x8000_0000 == 1;
    if exp == 0xFF {
        None
    } else if exp == 0 {
        Some(0)
    } else {
        let m: u64 = (0x80_0000 + frac) as u64;
        let e: i64 = (exp as i64) - 150;
        trunc_scaled(neg, m, e)
    }
}

} // verus!
