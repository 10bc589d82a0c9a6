//! The reordering of a row before its Fourier transform: each entry changes
//! places with the one whose number reads the same backwards in binary.

use vstd::prelude::*;

verus! {

/// The number of entries of a row.
pub const ROW: u32 = 64;

/// A number below `ROW` with its six binary digits reversed.
pub open spec fn backwards(i: u32) -> u32 {
    ((i & 1) << 5) | ((i & 2) << 3) | ((i & 4) << 1) | ((i & 8) >> 1) | ((i & 16) >> 3) | ((i & 32)
        >> 5)
}

/// A number below `ROW` with its six binary digits reversed.
pub fn reversed(i: u32) -> (r: u32)
    ensures
        r == backwards(i),
        r < ROW,
{
    let r: u32 = ((i & 1) << 5) | ((i & 2) << 3) | ((i & 4) << 1) | ((i & 8) >> 1) | ((i & 16)
        >> 3) | ((i & 32) >> 5);
    proof {
        assert((((i & 1) << 5) | ((i & 2) << 3) | ((i & 4) << 1) | ((i & 8) >> 1) | ((i & 16) >> 3)
            | ((i & 32) >> 5)) < 64) by (bit_vector);
    }
    r
}

/// Reading backwards twice gives the number back, so the reordering only swaps
/// entries.
pub proof fn reading_backwards_twice(i: u32)
    requires
        i < ROW,
    ensures
        backwards(i) < ROW,
        backwards(backwards(i)) == i,
{
    let j: u32 = backwards(i);
    assert((((i & 1) << 5) | ((i & 2) << 3) | ((i & 4) << 1) | ((i & 8) >> 1) | ((i & 16) >> 3) | ((
    i & 32) >> 5)) < 64) by (bit_vector);
    assert((((j & 1) << 5) | ((j & 2) << 3) | ((j & 4) << 1) | ((j & 8) >> 1) | ((j & 16) >> 3) | ((
    j & 32) >> 5)) == i) by (bit_vector)
        requires
            i < 64,
            j == (((i & 1) << 5) | ((i & 2) << 3) | ((i & 4) << 1) | ((i & 8) >> 1) | ((i & 16)
                >> 3) | ((i & 32) >> 5)),
    ;
}

/// The swaps of the entries below `upto`, in order: each with the smaller number
/// first, and none twice.
pub open spec fn swaps_below(upto: int) -> Seq<(u32, u32)>
    decreases upto,
{
    if upto <= 0 {
        Seq::empty()
    } else {
        let i = (upto - 1) as u32;
        if i < backwards(i) {
            swaps_below(upto - 1).push((i, backwards(i)))
        } else {
            swaps_below(upto - 1)
        }
    }
}

/// The swaps that reorder a row: each entry whose number is smaller backwards
/// than forwards was swapped before.
pub fn swaps() -> (r: Vec<(u32, u32)>)
    ensures
        r@ == swaps_below(ROW as int),
        forall|k: int| 0 <= k < r@.len() ==> (#[trigger] r@[k]).0 < r@[k].1 < ROW,
{
    let mut r: Vec<(u32, u32)> = Vec::new();
    let mut i: u32 = 0;
    while i < ROW
        invariant
            0 <= i <= ROW,
            r@ == swaps_below(i as int),
            forall|k: int| 0 <= k < r@.len() ==> (#[trigger] r@[k]).0 < r@[k].1 < ROW,
        decreases ROW - i,
    {
        let j: u32 = reversed(i);
        if i < j {
            r.push((i, j));
        }
        i = i + 1;
    }
    r
}

/// The two entries that butterfly number `m` of a stage combines, in groups of
/// `len` entries.
pub open spec fn wing(len: int, m: int) -> (int, int) {
    let half = len / 2;
    let low = m / half * len + m % half;
    (low, low + half)
}

/// The length of the groups of a stage: a power of two from 2 to `ROW`.
pub open spec fn is_group(len: int) -> bool {
    len == 2 || len == 4 || len == 8 || len == 16 || len == 32 || len == 64
}

/// The butterflies of a stage, group by group.
pub fn butterflies(len: u32) -> (r: Vec<(u32, u32)>)
    requires
        is_group(len as int),
    ensures
        r@.len() == ROW / 2,
        forall|m: int|
            0 <= m < r@.len() ==> (#[trigger] r@[m]).0 == wing(len as int, m).0 && r@[m].1 == wing(
                len as int,
                m,
            ).1 && r@[m].1 < ROW,
{
    let half: u32 = len / 2;
    let mut r: Vec<(u32, u32)> = Vec::new();
    let mut m: u32 = 0;
    while m < 32
        invariant
            is_group(len as int),
            half == len / 2,
            0 <= m <= 32,
            r@.len() == m,
            forall|k: int|
                0 <= k < m ==> (#[trigger] r@[k]).0 == wing(len as int, k).0 && r@[k].1 == wing(
                    len as int,
                    k,
                ).1 && r@[k].1 < ROW,
        decreases 32 - m,
    {
        proof {
            wings_cover_the_row(len as int, m as int);
        }
        assert(0 <= m / half * len <= wing(len as int, m as int).0);
        let low: u32 = m / half * len + m % half;
        r.push((low, low + half));
        m = m + 1;
    }
    r
}

/// The wings of a butterfly lie in the row, and the entry that each of them is
/// tells which butterfly it belongs to: a stage combines every entry once.
pub proof fn wings_cover_the_row(len: int, m: int)
    requires
        is_group(len),
        0 <= m < 32,
    ensures
        0 <= wing(len, m).0 < wing(len, m).1 < 64,
        wing(len, m).0 / len * (len / 2) + wing(len, m).0 % len == m,
        wing(len, m).1 / len * (len / 2) + wing(len, m).1 % len == m + len / 2,
        wing(len, m).0 % len < len / 2,
        wing(len, m).1 % len >= len / 2,
{
    let half = len / 2;
    let groups: int = if len == 2 {
        32
    } else if len == 4 {
        16
    } else if len == 8 {
        8
    } else if len == 16 {
        4
    } else if len == 32 {
        2
    } else {
        1
    };
    assert(len == 2 * half && 0 < half && half * groups == 32);
    vstd::arithmetic::div_mod::lemma_fundamental_div_mod(m, half);
    vstd::arithmetic::div_mod::lemma_mod_bound(m, half);
    let q = m / half;
    let r = m % half;
    let low = q * len + r;
    assert(0 <= q < groups) by (nonlinear_arith)
        requires
            m == half * q + r,
            0 <= r < half,
            0 <= m < half * groups,
    ;
    assert(0 <= q * len <= 64 - len) by (nonlinear_arith)
        requires
            0 <= q < groups,
            half * groups == 32,
            len == 2 * half,
            0 < half,
    ;
    vstd::arithmetic::div_mod::lemma_fundamental_div_mod_converse(low, len, q, r);
    vstd::arithmetic::div_mod::lemma_fundamental_div_mod_converse(low + half, len, q, r + half);
    assert(q * half + r == m) by (nonlinear_arith)
        requires
            m == half * q + r,
    ;
}

/// Reading backwards turns the binary digits round: the lowest becomes the highest
/// of six, the next one the next, and so on.
pub proof fn digits_are_turned_round(i: u32, j: u32)
    requires
        j < 6,
    ensures
        (backwards(i) >> j) & 1 == (i >> ((5 - j) as u32)) & 1,
        backwards(0) == 0,
        backwards(1) == 32,
        backwards(63) == 63,
{
    let k: u32 = (5 - j) as u32;
    assert(((((i & 1) << 5) | ((i & 2) << 3) | ((i & 4) << 1) | ((i & 8) >> 1) | ((i & 16) >> 3) | ((
    i & 32) >> 5)) >> j) & 1 == (i >> k) & 1) by (bit_vector)
        requires
            j < 6,
            k == 5 - j,
    ;
    assert((((0u32 & 1) << 5) | ((0u32 & 2) << 3) | ((0u32 & 4) << 1) | ((0u32 & 8) >> 1) | ((0u32 & 16)
        >> 3) | ((0u32 & 32) >> 5)) == 0) by (bit_vector);
    assert((((1u32 & 1) << 5) | ((1u32 & 2) << 3) | ((1u32 & 4) << 1) | ((1u32 & 8) >> 1) | ((1u32 & 16)
        >> 3) | ((1u32 & 32) >> 5)) == 32) by (bit_vector);
    assert((((63u32 & 1) << 5) | ((63u32 & 2) << 3) | ((63u32 & 4) << 1) | ((63u32 & 8) >> 1) | ((63u32
        & 16) >> 3) | ((63u32 & 32) >> 5)) == 63) by (bit_vector);
}

/// Every entry that changes places is swapped, once: with the entry whose number is
/// its own read backwards, the smaller number first, in order.
pub proof fn entries_are_swapped_once(upto: int, i: u32)
    requires
        0 <= upto <= 64,
    ensures
        swaps_below(upto).contains((i, backwards(i))) <==> i < upto && i < backwards(i),
        forall|k: int|
            0 <= k < swaps_below(upto).len() ==> (#[trigger] swaps_below(upto)[k]).1 == backwards(
                swaps_below(upto)[k].0,
            ) && swaps_below(upto)[k].0 < swaps_below(upto)[k].1 && swaps_below(upto)[k].0 < upto,
        forall|k: int, l: int|
            0 <= k < l < swaps_below(upto).len() ==> (#[trigger] swaps_below(upto)[k]).0 < (
            #[trigger] swaps_below(upto)[l]).0,
    decreases upto,
{
    if upto > 0 {
        entries_are_swapped_once(upto - 1, i);
        let rest = swaps_below(upto - 1);
        let now = swaps_below(upto);
        let last = (upto - 1) as u32;
        if rest.contains((i, backwards(i))) {
            let k = choose|k: int| 0 <= k < rest.len() && rest[k] == (i, backwards(i));
            assert(now[k] == (i, backwards(i)));
        }
        if i == last && i < backwards(i) {
            assert(now[rest.len() as int] == (i, backwards(i)));
        }
        if now.contains((i, backwards(i))) {
            let k = choose|k: int| 0 <= k < now.len() && now[k] == (i, backwards(i));
            if k < rest.len() {
                assert(rest[k] == (i, backwards(i)));
            }
        }
        assert forall|k: int| 0 <= k < now.len() implies (#[trigger] now[k]).1 == backwards(now[k].0)
            && now[k].0 < now[k].1 && now[k].0 < upto by {
            if k < rest.len() {
                assert(rest[k] == now[k]);
            }
        }
        assert forall|k: int, l: int| 0 <= k < l < now.len() implies (#[trigger] now[k]).0 < (
        #[trigger] now[l]).0 by {
            assert(rest[k] == now[k]);
            if l < rest.len() {
                assert(rest[l] == now[l]);
            }
        }
    }
}

/// The two entries of a butterfly are half a group apart, in the same group, and
/// the first of them is in its first half.
pub proof fn wings_are_half_a_group_apart(len: int, m: int)
    requires
        is_group(len),
        0 <= m < 32,
    ensures
        2 * (wing(len, m).1 - wing(len, m).0) == len,
        wing(len, m).0 / len == wing(len, m).1 / len,
        2 * (wing(len, m).0 % len) < len,
        is_group(len) <==> len == 2 || len == 4 || len == 8 || len == 16 || len == 32 || len == 64,
{
    let half = len / 2;
    let q = m / half;
    let r = m % half;
    let low = q * len + r;
    vstd::arithmetic::div_mod::lemma_mod_bound(m, half);
    vstd::arithmetic::div_mod::lemma_fundamental_div_mod_converse(low, len, q, r);
    vstd::arithmetic::div_mod::lemma_fundamental_div_mod_converse(low + half, len, q, r + half);
}

/// The groups of a stage have two entries, or twice as many as those of another
/// stage, up to a whole row.
pub proof fn groups_double_up_to_a_row(len: int)
    ensures
        is_group(2),
        is_group(64),
        is_group(len) && len < 64 ==> is_group(2 * len),
        is_group(len) && len > 2 ==> len % 2 == 0 && is_group(len / 2),
        is_group(len) ==> 2 <= len <= 64,
{
}

} // verus!
