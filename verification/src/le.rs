//! Little-endian interpretation of byte sequences.
//!
//! All multi-byte primitives in the extra-bytes format are stored least
//! significant byte first. These helpers read an unsigned value from a slice
//! and reinterpret it as a signed value of the same width where needed.

use vstd::prelude::*;

verus! {

/// The unsigned integer denoted by `s` read least significant byte first.
pub open spec fn le_value(s: Seq<u8>) -> nat
    decreases s.len(),
{
    if s.len() == 0 {
        0
    } else {
        (s[0] + 256 * le_value(s.drop_first())) as nat
    }
}

/// The two's-complement reinterpretation of an unsigned value of width
/// `2^bits`: values at or above half the range wrap to negatives.
pub open spec fn to_signed(v: nat, half: nat) -> int {
    if v < half {
        v as int
    } else {
        v - 2 * half
    }
}

/// `le_value` of any sequence of `n` bytes is below `2^(8*n)`; stated here for
/// the widths this crate reads.
pub proof fn lemma_le_value_bound(s: Seq<u8>)
    ensures
        s.len() == 2 ==> le_value(s) < 0x1_0000,
        s.len() == 4 ==> le_value(s) < 0x1_0000_0000,
        s.len() == 8 ==> le_value(s) < 0x1_0000_0000_0000_0000,
    decreases s.len(),
{
    if s.len() == 2 || s.len() == 4 || s.len() == 8 {
        lemma_le_value_small(s);
        lemma_pow256_values();
    }
}

/// Concrete values of `pow256` for the widths this crate reads.
pub proof fn lemma_pow256_values()
    ensures
        pow256(0) == 1,
        pow256(1) == 0x100,
        pow256(2) == 0x1_0000,
        pow256(3) == 0x100_0000,
        pow256(4) == 0x1_0000_0000,
        pow256(5) == 0x100_0000_0000,
        pow256(6) == 0x1_0000_0000_0000,
        pow256(7) == 0x100_0000_0000_0000,
        pow256(8) == 0x1_0000_0000_0000_0000,
{
    assert(pow256(0) == 1);
    assert(pow256(1) == 0x100);
    assert(pow256(2) == 0x1_0000);
    assert(pow256(3) == 0x100_0000);
    assert(pow256(4) == 0x1_0000_0000);
    assert(pow256(5) == 0x100_0000_0000);
    assert(pow256(6) == 0x1_0000_0000_0000);
    assert(pow256(7) == 0x100_0000_0000_0000);
    assert(pow256(8) == 0x1_0000_0000_0000_0000);
}

proof fn lemma_le_value_small(s: Seq<u8>)
    requires
        s.len() <= 8,
    ensures
        le_value(s) < pow256(s.len()),
    decreases s.len(),
{
    if s.len() == 0 {
    } else {
        lemma_le_value_small(s.drop_first());
    }
}

/// `256^n`, spelled out for the small widths used here.
pub open spec fn pow256(n: nat) -> nat
    decreases n,
{
    if n == 0 {
        1
    } else {
        256 * pow256((n - 1) as nat)
    }
}

/// Reads two bytes at `off` as an unsigned little-endian value.
pub fn read_u16_le(bytes: &[u8], off: usize) -> (r: u16)
    requires
        off + 2 <= bytes@.len(),
    ensures
        r == le_value(bytes@.subrange(off as int, off + 2)),
{
    let b0 = bytes[off];
    let b1 = bytes[off + 1];
    proof {
        let s = bytes@.subrange(off as int, off + 2);
        assert(s.drop_first() =~= bytes@.subrange(off + 1, off + 2));
        assert(s.drop_first().drop_first() =~= Seq::<u8>::empty());
        assert(le_value(s.drop_first().drop_first()) == 0);
        assert(le_value(s.drop_first()) == b1);
        assert(le_value(s) == b0 + 256 * (b1 as nat));
    }
    b0 as u16 + 256 * (b1 as u16)
}

/// Reads four bytes at `off` as an unsigned little-endian value.
pub fn read_u32_le(bytes: &[u8], off: usize) -> (r: u32)
    requires
        off + 4 <= bytes@.len(),
    ensures
        r == le_value(bytes@.subrange(off as int, off + 4)),
{
    let n = bytes.len();
    let lo = read_u16_le(bytes, off);
    let hi = read_u16_le(bytes, off + 2);
    proof {
        let s = bytes@.subrange(off as int, off + 4);
        let lo_s = bytes@.subrange(off as int, off + 2);
        let hi_s = bytes@.subrange(off + 2, off + 4);
        assert(lo_s =~= s.subrange(0, 2));
        assert(hi_s =~= s.subrange(2, 4));
        lemma_le_value_split(s, lo_s, hi_s, 2);
        lemma_le_value_bound(lo_s);
        lemma_le_value_bound(hi_s);
        lemma_pow256_values();
    }
    lo as u32 + 0x1_0000 * (hi as u32)
}

/// Reads eight bytes at `off` as an unsigned little-endian value.
pub fn read_u64_le(bytes: &[u8], off: usize) -> (r: u64)
    requires
        off + 8 <= bytes@.len(),
    ensures
        r == le_value(bytes@.subrange(off as int, off + 8)),
{
    let n = bytes.len();
    let lo = read_u32_le(bytes, off);
    let hi = read_u32_le(bytes, off + 4);
    proof {
        let s = bytes@.subrange(off as int, off + 8);
        let lo_s = bytes@.subrange(off as int, off + 4);
        let hi_s = bytes@.subrange(off + 4, off + 8);
        assert(lo_s =~= s.subrange(0, 4));
        assert(hi_s =~= s.subrange(4, 8));
        lemma_le_value_split(s, lo_s, hi_s, 4);
        lemma_le_value_bound(lo_s);
        lemma_le_value_bound(hi_s);
        lemma_pow256_values();
    }
    lo as u64 + 0x1_0000_0000 * (hi as u64)
}

/// Splitting a little-endian sequence after its `k` least significant bytes:
/// the whole is the low part plus the high part scaled by `256^k`.
proof fn lemma_le_value_split(s: Seq<u8>, lo: Seq<u8>, hi: Seq<u8>, k: nat)
    requires
        k <= s.len(),
        lo == s.subrange(0, k as int),
        hi == s.subrange(k as int, s.len() as int),
    ensures
        le_value(s) == le_value(lo) + pow256(k) * le_value(hi),
    decreases k,
{
    if k == 0 {
        assert(lo =~= Seq::<u8>::empty());
        assert(hi =~= s);
        assert(le_value(lo) == 0);
        assert(pow256(0) == 1);
        assert(pow256(k) * le_value(hi) == 1 * le_value(hi)) by (nonlinear_arith)
            requires
                pow256(k) == 1,
        ;
    } else {
        let t = s.drop_first();
        let lo1 = t.subrange(0, k - 1);
        let hi1 = t.subrange(k - 1, t.len() as int);
        lemma_le_value_split(t, lo1, hi1, (k - 1) as nat);
        assert(lo.drop_first() =~= lo1);
        assert(hi1 =~= hi);
        assert(le_value(s) == s[0] + 256 * le_value(t));
        assert(le_value(lo) == lo[0] + 256 * le_value(lo1));
        assert(lo[0] == s[0]);
        assert(le_value(t) == le_value(lo1) + pow256((k - 1) as nat) * le_value(hi1));
        assert(le_value(hi1) == le_value(hi));
        assert(pow256(k) == 256 * pow256((k - 1) as nat));
        assert(le_value(s) == le_value(lo) + pow256(k) * le_value(hi)) by (nonlinear_arith)
            requires
                le_value(s) == s[0] + 256 * le_value(t),
                le_value(lo) == lo[0] + 256 * le_value(lo1),
                lo[0] == s[0],
                le_value(t) == le_value(lo1) + pow256((k - 1) as nat) * le_value(hi1),
                le_value(hi1) == le_value(hi),
                pow256(k) == 256 * pow256((k - 1) as nat),
        ;
    }
}

/// Reinterprets a 16-bit unsigned value as two's-complement signed.
pub fn reinterpret_i16(v: u16) -> (r: i16)
    ensures
        r as int == to_signed(v as nat, 0x8000),
{
    if v < 0x8000 {
        v as i16
    } else {
        ((v as i32) - 0x1_0000) as i16
    }
}

/// Reinterprets an 8-bit unsigned value as two's-complement signed.
pub fn reinterpret_i8(v: u8) -> (r: i8)
    ensures
        r as int == to_signed(v as nat, 0x80),
{
    if v < 0x80 {
        v as i8
    } else {
        ((v as i16) - 0x100) as i8
    }
}

/// Reinterprets a 32-bit unsigned value as two's-complement signed.
pub fn reinterpret_i32(v: u32) -> (r: i32)
    ensures
        r as int == to_signed(v as nat, 0x8000_0000),
{
    if v < 0x8000_0000 {
        v as i32
    } else {
        ((v as i64) - 0x1_0000_0000) as i32
    }
}

/// Reinterprets a 64-bit unsigned value as two's-complement signed.
pub fn reinterpret_i64(v: u64) -> (r: i64)
    ensures
        r as int == to_signed(v as nat, 0x8000_0000_0000_0000),
{
    if v < 0x8000_0000_0000_0000 {
        v as i64
    } else {
        ((v as i128) - 0x1_0000_0000_0000_0000) as i64
    }
}

} // verus!
