//! Measurements as positions on the number line.
//!
//! A single-precision value is handed over as its bit pattern. Its rank is an
//! integer that orders exactly as the value does: zero ranks 0 whatever its
//! sign, positive values rank by their bit pattern and negative ones mirror
//! them. What is not a number has no rank.

use vstd::arithmetic::power2::{lemma_pow2_adds, lemma_pow2_pos, lemma_pow2_strictly_increases, pow2};
use vstd::prelude::*;

verus! {

/// The position of a measurement on the number line.
pub type Rank = i32;

/// The rank of positive infinity, the largest of all.
pub const INFINITE: i32 = 0x7f80_0000;

/// The bit pattern without its sign.
pub open spec fn magnitude(bits: u32) -> int {
    bits as int % 0x8000_0000
}

/// Whether the bit pattern stands for a number or an infinity.
pub open spec fn is_number(bits: u32) -> bool {
    magnitude(bits) <= INFINITE
}

/// Whether the bit pattern stands for a finite number.
pub open spec fn is_finite(bits: u32) -> bool {
    magnitude(bits) < INFINITE
}

/// The rank of a bit pattern.
pub open spec fn rank_of(bits: u32) -> int {
    if bits < 0x8000_0000 {
        magnitude(bits)
    } else {
        -magnitude(bits)
    }
}

/// The size of the finite number with the given magnitude, counted in units
/// of two to the power of minus 149, of which every such number is a multiple.
pub open spec fn size_of(magnitude: int) -> int {
    let exponent = magnitude / 0x80_0000;
    let fraction = magnitude % 0x80_0000;
    if exponent <= 0 {
        fraction
    } else {
        (0x80_0000 + fraction) * pow2((exponent - 1) as nat)
    }
}

/// The finite number that a bit pattern stands for, in the same units.
pub open spec fn value_of(bits: u32) -> int {
    if bits < 0x8000_0000 {
        size_of(magnitude(bits))
    } else {
        -size_of(magnitude(bits))
    }
}

/// Whether a rank belongs to a number or an infinity.
pub open spec fn in_range(rank: int) -> bool {
    -INFINITE <= rank <= INFINITE
}

/// The larger of two ranks.
pub open spec fn max_rank(a: int, b: int) -> int {
    if a < b {
        b
    } else {
        a
    }
}

/// The smaller of two ranks.
pub open spec fn min_rank(a: int, b: int) -> int {
    if b < a {
        b
    } else {
        a
    }
}

/// Whether a rank is that of the single-precision number closest to
/// `num / den`, for ranks of normal numbers below two to the power of 24.
pub open spec fn reads(rank: int, num: int, den: int) -> bool {
    let exponent = rank / 0x80_0000;
    let fraction = rank % 0x80_0000;
    let off = (0x80_0000 + fraction) * den - num * pow2((150 - exponent) as nat);
    &&& 0 < exponent <= 150
    &&& -den <= 2 * off <= den
}

/// The rank of a bit pattern, if it stands for a number.
pub fn rank(bits: u32) -> (r: Option<Rank>)
    ensures
        r is Some <==> is_number(bits),
        r matches Some(k) ==> k == rank_of(bits),
        bits <= 0x7f80_0000 ==> r == Some(bits as i32),
        0x7f80_0000 < bits < 0x8000_0000 ==> r is None,
        0x8000_0000 <= bits <= 0xff80_0000 ==> (r matches Some(k) && k == 0x8000_0000 - bits),
        bits > 0xff80_0000 ==> r is None,
{
    let size: u32 = if bits < 0x8000_0000 {
        bits
    } else {
        bits - 0x8000_0000
    };
    if size > 0x7f80_0000 {
        None
    } else if bits < 0x8000_0000 {
        Some(size as i32)
    } else {
        Some(-(size as i32))
    }
}

/// A bit pattern with the given rank; zero comes back without a sign.
pub fn bits_of(rank: Rank) -> (bits: u32)
    requires
        in_range(rank as int),
    ensures
        is_number(bits),
        rank_of(bits) == rank,
        rank == 0 ==> bits == 0,
{
    if rank >= 0 {
        rank as u32
    } else {
        0x8000_0000 + ((-rank) as u32)
    }
}

/// The larger of two measurements.
pub fn larger(a: Rank, b: Rank) -> (r: Rank)
    ensures
        r == max_rank(a as int, b as int),
        r >= a && r >= b && (r == a || r == b),
{
    if a < b {
        b
    } else {
        a
    }
}

/// The smaller of two measurements.
pub fn smaller(a: Rank, b: Rank) -> (r: Rank)
    ensures
        r == min_rank(a as int, b as int),
        r <= a && r <= b && (r == a || r == b),
{
    if b < a {
        b
    } else {
        a
    }
}

/// A measurement raised to the lower bound, then lowered to the upper one.
pub fn clamp(v: Rank, lo: Rank, hi: Rank) -> (r: Rank)
    ensures
        r == min_rank(max_rank(v as int, lo as int), hi as int),
        lo <= hi ==> lo <= r <= hi,
        lo <= v <= hi ==> r == v,
        v >= hi ==> r == hi,
        v <= lo <= hi ==> r == lo,
{
    smaller(larger(v, lo), hi)
}

proof fn lemma_pow2_monotone(a: nat, b: nat)
    requires
        a <= b,
    ensures
        0 < pow2(a) <= pow2(b),
{
    lemma_pow2_pos(a);
    if a < b {
        lemma_pow2_strictly_increases(a, b);
    }
}

/// Sizes grow strictly with the magnitude.
proof fn lemma_size_monotone(a: int, b: int)
    requires
        0 <= a < b,
    ensures
        0 <= size_of(a) < size_of(b),
{
    let ea = a / 0x80_0000;
    let eb = b / 0x80_0000;
    let fa = a % 0x80_0000;
    let fb = b % 0x80_0000;
    if eb == 0 {
    } else if ea == eb {
        let p = pow2((ea - 1) as nat) as int;
        lemma_pow2_pos((ea - 1) as nat);
        assert(0 <= (0x80_0000 + fa) * p < (0x80_0000 + fb) * p) by (nonlinear_arith)
            requires
                0 <= fa < fb,
                p > 0,
        ;
    } else {
        let pb = pow2((eb - 1) as nat) as int;
        lemma_pow2_pos((eb - 1) as nat);
        assert(0x80_0000 * pb <= (0x80_0000 + fb) * pb) by (nonlinear_arith)
            requires
                fb >= 0,
                pb > 0,
        ;
        if ea == 0 {
        } else {
            let pa = pow2((ea - 1) as nat) as int;
            lemma_pow2_monotone(ea as nat, (eb - 1) as nat);
            lemma_pow2_pos((ea - 1) as nat);
            lemma_pow2_adds(1, (ea - 1) as nat);
            assert(pow2(1) == 2) by {
                vstd::arithmetic::power2::lemma2_to64();
            }
            assert(0 <= (0x80_0000 + fa) * pa < 0x100_0000 * pa) by (nonlinear_arith)
                requires
                    0 <= fa < 0x80_0000,
                    pa > 0,
            ;
        }
    }
}

/// Ranks order as the numbers do: of two finite numbers the smaller one has
/// the smaller rank, and equal numbers share one.
pub proof fn ranks_order_as_numbers(a: u32, b: u32)
    requires
        is_finite(a),
        is_finite(b),
    ensures
        value_of(a) < value_of(b) <==> rank_of(a) < rank_of(b),
        value_of(a) == value_of(b) <==> rank_of(a) == rank_of(b),
{
    let ma = magnitude(a);
    let mb = magnitude(b);
    assert(size_of(0) == 0);
    if 0 < ma {
        lemma_size_monotone(0, ma);
    }
    if 0 < mb {
        lemma_size_monotone(0, mb);
    }
    if ma < mb {
        lemma_size_monotone(ma, mb);
    } else if mb < ma {
        lemma_size_monotone(mb, ma);
    }
}

/// The larger of two ranks is one of them and not below either, the smaller one
/// not above either.
pub proof fn extremes_are_one_of_two(a: int, b: int)
    ensures
        max_rank(a, b) == a || max_rank(a, b) == b,
        max_rank(a, b) >= a && max_rank(a, b) >= b,
        min_rank(a, b) == a || min_rank(a, b) == b,
        min_rank(a, b) <= a && min_rank(a, b) <= b,
        max_rank(a, b) + min_rank(a, b) == a + b,
{
}

/// Turning the sign of a number turns that of its rank, zero and the infinities
/// included, and what is not a number stays so.
pub proof fn signs_mirror_ranks(bits: u32)
    requires
        bits < 0x8000_0000,
    ensures
        ({
            let turned = (bits + 0x8000_0000) as u32;
            &&& rank_of(turned) == -rank_of(bits)
            &&& is_number(turned) <==> is_number(bits)
            &&& is_number(bits) <==> bits <= 0x7f80_0000
            &&& is_finite(bits) <==> bits < 0x7f80_0000
            &&& rank_of(bits) == bits
        }),
{
}

} // verus!
