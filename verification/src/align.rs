//! Rounding of offsets to power-of-two alignments.

use vstd::arithmetic::power2::is_pow2;
use vstd::prelude::*;

verus! {

/// The largest multiple of `align` that does not exceed `pos`.
pub open spec fn floor_multiple(pos: int, align: int) -> int {
    pos - pos % align
}

/// The smallest multiple of `align` that is not below `pos`.
pub open spec fn ceil_multiple(pos: int, align: int) -> int {
    floor_multiple(pos + align - 1, align)
}

/// What clearing the bits of `align - 1` in `pos` leaves.
pub open spec fn clear_low_bits(pos: usize, align: usize) -> usize {
    pos & !((align - 1) as usize)
}

proof fn lemma_and_mask_is_mod(x: usize, a: usize)
    requires
        is_pow2(a as int),
    ensures
        x & ((a - 1) as usize) == x % a,
    decreases a,
{
    reveal(is_pow2);
    if a == 1 {
        assert(x & 0usize == 0usize) by (bit_vector);
    } else {
        let h: usize = a / 2;
        let y: usize = x / 2;
        lemma_and_mask_is_mod(y, h);
        assert(x & ((a - 1) as usize) == 2 * (y & ((h - 1) as usize)) + x % 2) by (bit_vector)
            requires
                a % 2 == 0,
                a >= 2,
                h == a / 2,
                y == x / 2,
        ;
        assert(x % a == 2 * (y % h) + x % 2) by {
            vstd::arithmetic::div_mod::lemma_mod_breakdown(x as int, 2, h as int);
        }
    }
}

/// For a power-of-two `align`, clearing the low bits of `pos` rounds it down
/// to a multiple of `align`.
pub proof fn lemma_clear_low_bits_rounds_down(pos: usize, align: usize)
    requires
        is_pow2(align as int),
    ensures
        clear_low_bits(pos, align) == floor_multiple(pos as int, align as int),
{
    assert(align >= 1) by {
        reveal(is_pow2);
    }
    lemma_and_mask_is_mod(pos, align);
    let mask: usize = (align - 1) as usize;
    assert(pos & !mask == pos - (pos & mask)) by (bit_vector);
}

/// `floor_multiple(pos, align)` is a multiple of `align`, at most `pos`, and
/// less than `align` below it.
pub proof fn lemma_floor_multiple(pos: int, align: int)
    requires
        0 <= pos,
        0 < align,
    ensures
        floor_multiple(pos, align) % align == 0,
        pos - align < floor_multiple(pos, align) <= pos,
        0 <= floor_multiple(pos, align),
{
    vstd::arithmetic::div_mod::lemma_fundamental_div_mod(pos, align);
    vstd::arithmetic::div_mod::lemma_mod_multiples_basic(pos / align, align);
    assert(align * (pos / align) == (pos / align) * align) by (nonlinear_arith);
}

/// `ceil_multiple(pos, align)` is a multiple of `align`, at least `pos`, and
/// less than `align` above it.
pub proof fn lemma_ceil_multiple(pos: int, align: int)
    requires
        0 <= pos,
        0 < align,
    ensures
        ceil_multiple(pos, align) % align == 0,
        pos <= ceil_multiple(pos, align) < pos + align,
{
    lemma_floor_multiple(pos + align - 1, align);
}

/// No multiple of `align` lies strictly between `pos` and its rounding, in
/// either direction: the roundings are the nearest multiples.
pub proof fn lemma_roundings_are_nearest(pos: int, align: int, m: int)
    requires
        0 <= pos,
        0 < align,
        0 <= m,
        m % align == 0,
    ensures
        m <= pos ==> m <= floor_multiple(pos, align),
        m >= pos ==> m >= ceil_multiple(pos, align),
{
    lemma_floor_multiple(pos, align);
    lemma_ceil_multiple(pos, align);
    let f = floor_multiple(pos, align);
    let c = ceil_multiple(pos, align);
    vstd::arithmetic::div_mod::lemma_fundamental_div_mod(m, align);
    vstd::arithmetic::div_mod::lemma_fundamental_div_mod(f, align);
    vstd::arithmetic::div_mod::lemma_fundamental_div_mod(c, align);
    let qm = m / align;
    let qf = f / align;
    let qc = c / align;
    if m <= pos && m > f {
        assert(qm > qf && align * qm >= align * qf + align) by (nonlinear_arith)
            requires
                align * qm > align * qf,
                align > 0,
        ;
    }
    if m >= pos && m < c {
        assert(qm < qc && align * qm + align <= align * qc) by (nonlinear_arith)
            requires
                align * qm < align * qc,
                align > 0,
        ;
    }
}

/// An offset that is a multiple of `align` gives an address that is one too,
/// provided the base it is added to is such a multiple.
pub proof fn lemma_aligned_base_keeps_alignment(base: int, offset: int, align: int)
    requires
        0 < align,
        base % align == 0,
        offset % align == 0,
    ensures
        (base + offset) % align == 0,
{
    vstd::arithmetic::div_mod::lemma_mod_adds(base, offset, align);
}

/// Of two powers of two, the smaller divides the larger.
pub proof fn lemma_pow2_divides(a: int, b: int)
    requires
        is_pow2(a),
        is_pow2(b),
        a <= b,
    ensures
        b % a == 0,
    decreases a,
{
    reveal(is_pow2);
    if a > 1 {
        let ha = a / 2;
        let hb = b / 2;
        lemma_pow2_divides(ha, hb);
        vstd::arithmetic::div_mod::lemma_fundamental_div_mod(hb, ha);
        let q = hb / ha;
        assert(b == a * q) by (nonlinear_arith)
            requires
                b == 2 * hb,
                a == 2 * ha,
                hb == ha * q,
        ;
        vstd::arithmetic::div_mod::lemma_mod_multiples_basic(q, a);
        assert(a * q == q * a) by (nonlinear_arith);
    }
}

/// The number of values a `usize` can take is a power of two.
pub proof fn lemma_word_is_pow2()
    ensures
        is_pow2(usize::MAX + 1),
{
    vstd::layout::unsigned_int_max_values();
    let bits: nat = usize::BITS as nat;
    vstd::arithmetic::power2::lemma_pow2(bits);
    vstd::arithmetic::power2::lemma_pow2_pos(bits);
    assert(vstd::arithmetic::power::pow(2, bits) == usize::MAX + 1);
    assert(vstd::arithmetic::power2::is_pow2_exists(usize::MAX + 1));
    vstd::arithmetic::power2::is_pow2_equiv(usize::MAX + 1);
}

/// Where stepping `pos` up by `align - 1` leaves the range of `usize`, so
/// does the next multiple of a power-of-two `align`.
pub proof fn lemma_ceil_multiple_overflows(pos: usize, align: usize)
    requires
        is_pow2(align as int),
        pos + align - 1 > usize::MAX,
    ensures
        ceil_multiple(pos as int, align as int) > usize::MAX,
{
    assert(align >= 1) by {
        reveal(is_pow2);
    }
    let a = align as int;
    let c = ceil_multiple(pos as int, a);
    let w = usize::MAX + 1;
    lemma_ceil_multiple(pos as int, a);
    lemma_word_is_pow2();
    lemma_pow2_divides(a, w);
    if c < w {
        vstd::arithmetic::div_mod::lemma_fundamental_div_mod(c, a);
        vstd::arithmetic::div_mod::lemma_fundamental_div_mod(w, a);
        let qc = c / a;
        let qw = w / a;
        assert(a * qc + a <= a * qw) by (nonlinear_arith)
            requires
                a * qc < a * qw,
                a > 0,
        ;
    }
}

/// Rounds `pos` down by clearing the bits below `align`; for a power-of-two
/// `align` that is the largest multiple of `align` not above `pos`.
pub fn align_down(pos: usize, align: usize) -> (r: usize)
    requires
        align > 0,
    ensures
        r == clear_low_bits(pos, align),
        r <= pos,
        is_pow2(align as int) ==> r == floor_multiple(pos as int, align as int),
{
    let mask: usize = align - 1;
    proof {
        assert(pos & !mask <= pos) by (bit_vector);
        if is_pow2(align as int) {
            lemma_clear_low_bits_rounds_down(pos, align);
        }
    }
    pos & !mask
}

/// Rounds `pos` up to the next position whose bits below `align` are clear;
/// for a power-of-two `align` that is the smallest multiple of `align` not
/// below `pos`.
pub fn align_up(pos: usize, align: usize) -> (r: usize)
    requires
        align > 0,
        pos + align - 1 <= usize::MAX,
    ensures
        r == clear_low_bits((pos + align - 1) as usize, align),
        pos <= r <= pos + align - 1,
        is_pow2(align as int) ==> r == ceil_multiple(pos as int, align as int),
{
    let mask: usize = align - 1;
    let bumped: usize = pos + mask;
    proof {
        assert(bumped - mask <= bumped & !mask <= bumped) by (bit_vector);
        if is_pow2(align as int) {
            lemma_clear_low_bits_rounds_down(bumped, align);
        }
    }
    bumped & !mask
}

} // verus!
