//! Bit-field access on 64-bit words, the primitive every descriptor and
//! page-table encoding in the kernel is built from. Narrower words (`u8`,
//! `u16`, `u32`) are widened to `u64`, edited, and narrowed again.
use vstd::prelude::*;

verus! {

/// The all-ones mask of width `w` (`w <= 64`).
pub open spec fn mask(w: u64) -> u64 {
    if w >= 64 {
        0xffff_ffff_ffff_ffffu64
    } else {
        ((1u64 << w) - 1) as u64
    }
}

/// Bits `lo..hi` of `x`, shifted down to bit 0.
pub open spec fn bits_of(x: u64, lo: u64, hi: u64) -> u64 {
    (x >> lo) & mask((hi - lo) as u64)
}

/// `x` with bits `lo..hi` replaced by the low `hi - lo` bits of `v`.
pub open spec fn with_bits(x: u64, lo: u64, hi: u64, v: u64) -> u64 {
    (x & !(mask((hi - lo) as u64) << lo)) | ((v & mask((hi - lo) as u64)) << lo)
}

/// Whether bit `i` of `x` is set.
pub open spec fn bit_of(x: u64, i: u64) -> bool {
    bits_of(x, i, (i + 1) as u64) == 1
}

/// `x` with bit `i` set to `b`.
pub open spec fn with_bit(x: u64, i: u64, b: bool) -> u64 {
    with_bits(x, i, (i + 1) as u64, if b { 1 } else { 0 })
}

proof fn lemma_mask_small(w: u64)
    requires
        w < 64,
    ensures
        mask(w) == ((1u64 << w) - 1) as u64,
        1u64 << w >= 1,
{
    assert(1u64 << w >= 1) by (bit_vector)
        requires
            w < 64,
    ;
}

/// A one-bit field's mask is 1.
pub proof fn lemma_mask_one()
    ensures
        mask(1) == 1,
        1u64 & mask(1) == 1,
        0u64 & mask(1) == 0,
{
    lemma_mask_small(1);
    assert(1u64 << 1u64 == 2) by (bit_vector);
    assert(1u64 & 1u64 == 1 && 0u64 & 1u64 == 0) by (bit_vector);
}

/// Reading back a field that was just written gives the written value,
/// cut to the field's width.
pub proof fn lemma_get_set_same(x: u64, lo: u64, hi: u64, v: u64)
    requires
        lo < hi <= 64,
    ensures
        bits_of(with_bits(x, lo, hi, v), lo, hi) == v & mask((hi - lo) as u64),
{
    let w = (hi - lo) as u64;
    if w >= 64 {
        assert(lo == 0);
        assert(((x & !(0xffff_ffff_ffff_ffffu64 << 0u64)) | ((v & 0xffff_ffff_ffff_ffffu64) << 0u64)) >> 0u64
            & 0xffff_ffff_ffff_ffffu64 == v & 0xffff_ffff_ffff_ffffu64) by (bit_vector);
    } else {
        let m = ((1u64 << w) - 1) as u64;
        lemma_mask_small(w);
        assert((((x & !(m << lo)) | ((v & m) << lo)) >> lo) & m == v & m) by (bit_vector)
            requires
                lo < 64,
                w < 64,
                lo + w <= 64,
                m == ((1u64 << w) - 1) as u64,
        ;
    }
}

/// Writing a field leaves every field that does not overlap it unchanged.
pub proof fn lemma_get_set_disjoint(x: u64, lo: u64, hi: u64, v: u64, lo2: u64, hi2: u64)
    requires
        lo < hi <= 64,
        lo2 < hi2 <= 64,
        hi <= lo2 || hi2 <= lo,
    ensures
        bits_of(with_bits(x, lo, hi, v), lo2, hi2) == bits_of(x, lo2, hi2),
{
    let w = (hi - lo) as u64;
    let w2 = (hi2 - lo2) as u64;
    let m = mask(w);
    let m2 = mask(w2);
    if w < 64 {
        lemma_mask_small(w);
    }
    if w2 < 64 {
        lemma_mask_small(w2);
    }
    assert((((x & !(m << lo)) | ((v & m) << lo)) >> lo2) & m2 == (x >> lo2) & m2) by (bit_vector)
        requires
            lo < hi <= 64,
            lo2 < hi2 <= 64,
            hi <= lo2 || hi2 <= lo,
            w + lo == hi,
            w2 + lo2 == hi2,
            w < 64 ==> m == ((1u64 << w) - 1) as u64,
            w >= 64 ==> m == 0xffff_ffff_ffff_ffffu64,
            w2 < 64 ==> m2 == ((1u64 << w2) - 1) as u64,
            w2 >= 64 ==> m2 == 0xffff_ffff_ffff_ffffu64,
    ;
}

/// A field of width `w` holds at most `mask(w)`; when `w < 64` that is
/// `2^w - 1`.
pub proof fn lemma_bits_bound(x: u64, lo: u64, hi: u64)
    requires
        lo < hi <= 64,
    ensures
        bits_of(x, lo, hi) <= mask((hi - lo) as u64),
        (hi - lo) < 64 ==> bits_of(x, lo, hi) < (1u64 << ((hi - lo) as u64)),
{
    let w = (hi - lo) as u64;
    let m = mask(w);
    if w < 64 {
        lemma_mask_small(w);
        assert((x >> lo) & m <= m && (x >> lo) & m < (1u64 << w)) by (bit_vector)
            requires
                w < 64,
                m == ((1u64 << w) - 1) as u64,
        ;
    } else {
        assert((x >> lo) & m <= m) by (bit_vector);
    }
}

/// Editing a field that lies below bit `k` of a word that fits in `k` bits
/// gives a word that still fits in `k` bits.
pub proof fn lemma_with_bits_fits(x: u64, lo: u64, hi: u64, v: u64, k: u64)
    requires
        lo < hi <= k,
        k < 64,
        x < (1u64 << k),
    ensures
        with_bits(x, lo, hi, v) < (1u64 << k),
{
    let w = (hi - lo) as u64;
    lemma_mask_small(w);
    let m = mask(w);
    assert((x & !(m << lo)) | ((v & m) << lo) < (1u64 << k)) by (bit_vector)
        requires
            lo < hi <= k,
            k < 64,
            x < (1u64 << k),
            w + lo == hi,
            m == ((1u64 << w) - 1) as u64,
    ;
}

/// The bits of a word below bit 64 that a single bit stands for.
pub proof fn lemma_bit_of_is_bit(x: u64, i: u64)
    requires
        i < 64,
    ensures
        bit_of(x, i) == ((x >> i) & 1 == 1),
        bits_of(x, i, (i + 1) as u64) <= 1,
{
    lemma_mask_small(1);
    assert(1u64 << 1u64 == 2) by (bit_vector);
    assert((x >> i) & 1 <= 1) by (bit_vector);
}

/// Filling a field with all ones or all zeros sets every bit inside it to
/// that value and leaves every bit outside it unchanged.
pub proof fn lemma_fill_bits(x: u64, lo: u64, hi: u64, ones: bool, j: u64)
    requires
        lo < hi <= 64,
        j < 64,
    ensures
        bit_of(with_bits(x, lo, hi, if ones { 0xffff_ffff_ffff_ffffu64 } else { 0u64 }), j)
            == if lo <= j < hi { ones } else { bit_of(x, j) },
{
    let v: u64 = if ones { 0xffff_ffff_ffff_ffffu64 } else { 0u64 };
    let w = (hi - lo) as u64;
    let m = mask(w);
    if w < 64 {
        lemma_mask_small(w);
    }
    lemma_mask_small(1);
    assert(1u64 << 1u64 == 2) by (bit_vector);
    let y = with_bits(x, lo, hi, v);
    assert(((((x & !(m << lo)) | ((v & m) << lo)) >> j) & 1u64 == 1u64) == (if lo <= j && j < hi {
        v == 0xffff_ffff_ffff_ffffu64
    } else {
        (x >> j) & 1u64 == 1u64
    })) by (bit_vector)
        requires
            lo < hi <= 64,
            j < 64,
            w + lo == hi,
            w < 64 ==> m == ((1u64 << w) - 1) as u64,
            w >= 64 ==> m == 0xffff_ffff_ffff_ffffu64,
            v == 0xffff_ffff_ffff_ffffu64 || v == 0u64,
    ;
}

/// Bits `lo..hi` of `x`.
pub fn get_bits(x: u64, lo: u64, hi: u64) -> (r: u64)
    requires
        lo < hi <= 64,
    ensures
        r == bits_of(x, lo, hi),
        r <= mask((hi - lo) as u64),
        (hi - lo) < 64 ==> r < (1u64 << ((hi - lo) as u64)),
{
    proof { lemma_bits_bound(x, lo, hi); }
    let w = hi - lo;
    let m = if w >= 64 {
        0xffff_ffff_ffff_ffffu64
    } else {
        proof { lemma_mask_small(w); }
        (1u64 << w) - 1
    };
    (x >> lo) & m
}

/// `x` with bits `lo..hi` replaced by the low `hi - lo` bits of `v`.
pub fn set_bits(x: u64, lo: u64, hi: u64, v: u64) -> (r: u64)
    requires
        lo < hi <= 64,
    ensures
        r == with_bits(x, lo, hi, v),
        bits_of(r, lo, hi) == v & mask((hi - lo) as u64),
{
    proof { lemma_get_set_same(x, lo, hi, v); }
    let w = hi - lo;
    let m = if w >= 64 {
        0xffff_ffff_ffff_ffffu64
    } else {
        proof { lemma_mask_small(w); }
        (1u64 << w) - 1
    };
    (x & !(m << lo)) | ((v & m) << lo)
}

/// Whether bit `i` of `x` is set.
pub fn get_bit(x: u64, i: u64) -> (r: bool)
    requires
        i < 64,
    ensures
        r == bit_of(x, i),
{
    get_bits(x, i, i + 1) == 1
}

/// `x` with bit `i` set to `b`.
pub fn set_bit(x: u64, i: u64, b: bool) -> (r: u64)
    requires
        i < 64,
    ensures
        r == with_bit(x, i, b),
        bit_of(r, i) == b,
{
    proof {
        lemma_get_set_same(x, i, (i + 1) as u64, if b { 1 } else { 0 });
        lemma_mask_one();
    }
    set_bits(x, i, i + 1, if b { 1 } else { 0 })
}

/// Bits `lo..hi` of a byte.
pub fn get_bits_u8(x: u8, lo: u64, hi: u64) -> (r: u8)
    requires
        lo < hi <= 8,
    ensures
        r == bits_of(x as u64, lo, hi),
{
    proof {
        lemma_bits_bound(x as u64, lo, hi);
        lemma_mask_small((hi - lo) as u64);
        let w = (hi - lo) as u64;
        assert(w <= 8 ==> (1u64 << w) <= 256) by (bit_vector);
    }
    get_bits(x as u64, lo, hi) as u8
}

/// A byte with bits `lo..hi` replaced by the low bits of `v`.
pub fn set_bits_u8(x: u8, lo: u64, hi: u64, v: u64) -> (r: u8)
    requires
        lo < hi <= 8,
    ensures
        r == with_bits(x as u64, lo, hi, v),
{
    proof {
        assert(1u64 << 8u64 == 256) by (bit_vector);
        lemma_with_bits_fits(x as u64, lo, hi, v, 8);
    }
    set_bits(x as u64, lo, hi, v) as u8
}

/// Bits `lo..hi` of a 32-bit word.
pub fn get_bits_u32(x: u32, lo: u64, hi: u64) -> (r: u32)
    requires
        lo < hi <= 32,
    ensures
        r == bits_of(x as u64, lo, hi),
{
    proof {
        lemma_bits_bound(x as u64, lo, hi);
        let w = (hi - lo) as u64;
        assert(w <= 32 ==> (1u64 << w) <= 0x1_0000_0000) by (bit_vector);
    }
    get_bits(x as u64, lo, hi) as u32
}

/// Whether bit `i` of a byte is set.
pub fn get_bit_u8(x: u8, i: u64) -> (r: bool)
    requires
        i < 8,
    ensures
        r == bit_of(x as u64, i),
{
    get_bit(x as u64, i)
}

/// A byte with bit `i` set to `b`.
pub fn set_bit_u8(x: u8, i: u64, b: bool) -> (r: u8)
    requires
        i < 8,
    ensures
        r == with_bit(x as u64, i, b),
        bit_of(r as u64, i) == b,
{
    proof {
        lemma_get_set_same(x as u64, i, (i + 1) as u64, if b { 1 } else { 0 });
        lemma_mask_one();
    }
    set_bits_u8(x, i, i + 1, if b { 1 } else { 0 })
}

} // verus!
