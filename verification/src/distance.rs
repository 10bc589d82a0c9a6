//! Distances between the centres of blocks.

use crate::grid::Block;
use vstd::prelude::*;

verus! {

/// Four times the squared distance of the centres of two blocks.
pub open spec fn centre_gap2(a: Block, b: Block) -> int {
    (a.cx2() - b.cx2()) * (a.cx2() - b.cx2()) + (a.cy2() - b.cy2()) * (a.cy2() - b.cy2())
}

/// Whether the centres of two blocks are no further apart than `num / den`
/// times the given length.
pub open spec fn within(a: Block, b: Block, num: int, den: int, length: int) -> bool {
    den * den * centre_gap2(a, b) <= 4 * (num * num) * (length * length)
}

proof fn lemma_square_bound(d: int)
    requires
        -0x3_0000_0000 <= d <= 0x3_0000_0000,
    ensures
        0 <= d * d <= 0x9_0000_0000_0000_0000,
{
    assert(0 <= d * d <= 0x9_0000_0000_0000_0000) by (nonlinear_arith)
        requires
            -0x3_0000_0000 <= d <= 0x3_0000_0000,
    ;
}

fn square_gap(a: u64, b: u64) -> (r: u128)
    requires
        a <= 0x3_0000_0000,
        b <= 0x3_0000_0000,
    ensures
        r == (a - b) * (a - b),
        r <= 0x9_0000_0000_0000_0000,
{
    proof {
        lemma_square_bound(a - b);
        lemma_square_bound(b - a);
        assert((a - b) * (a - b) == (b - a) * (b - a)) by (nonlinear_arith);
    }
    let d: u64 = if a >= b {
        a - b
    } else {
        b - a
    };
    (d as u128) * (d as u128)
}

/// Four times the squared distance of the centres of two blocks.
pub fn gap2_of(a: &Block, b: &Block) -> (r: u128)
    ensures
        r == centre_gap2(*a, *b),
        r <= 0x12_0000_0000_0000_0000,
{
    square_gap(a.centre_x2(), b.centre_x2()) + square_gap(a.centre_y2(), b.centre_y2())
}

/// Whether the centres of two blocks are no further apart than `num / den`
/// times the given length.
pub fn is_within(a: &Block, b: &Block, num: u32, den: u32, length: u64) -> (r: bool)
    requires
        num <= 0xff,
        den <= 0xff,
        length <= 0x1_ffff_ffff,
    ensures
        r == within(*a, *b, num as int, den as int, length as int),
        r == ((den * den) * (((2 * a.x + a.w) - (2 * b.x + b.w)) * ((2 * a.x + a.w) - (2 * b.x
            + b.w)) + ((2 * a.y + a.h) - (2 * b.y + b.h)) * ((2 * a.y + a.h) - (2 * b.y + b.h)))
            <= (4 * (num * num)) * (length * length)),
{
    let gap2: u128 = gap2_of(a, b);
    proof {
        assert(0 <= den * den <= 0xffff) by (nonlinear_arith)
            requires
                0 <= den <= 0xff,
        ;
        assert(0 <= num * num <= 0xffff) by (nonlinear_arith)
            requires
                0 <= num <= 0xff,
        ;
        let dd = den * den;
        assert(0 <= dd * gap2 <= 0xffff * 0x12_0000_0000_0000_0000) by (nonlinear_arith)
            requires
                0 <= dd <= 0xffff,
                0 <= gap2 <= 0x12_0000_0000_0000_0000,
        ;
        assert(0 <= length * length <= 0x4_0000_0000_0000_0000) by (nonlinear_arith)
            requires
                0 <= length <= 0x1_ffff_ffff,
        ;
        let nn = 4 * (num * num);
        let ll = length * length;
        assert(0 <= nn * ll <= 0x3_fffc * 0x4_0000_0000_0000_0000) by (nonlinear_arith)
            requires
                0 <= nn <= 0x3_fffc,
                0 <= ll <= 0x4_0000_0000_0000_0000,
        ;
    }
    let n: u128 = num as u128;
    let d: u128 = den as u128;
    let l: u128 = length as u128;
    d * d * gap2 <= 4 * (n * n) * (l * l)
}

/// The distance of two centres does not depend on their order.
pub proof fn distances_are_symmetric(a: Block, b: Block, num: int, den: int, length: int)
    ensures
        within(a, b, num, den, length) == within(b, a, num, den, length),
{
    assert((a.cx2() - b.cx2()) * (a.cx2() - b.cx2()) == (b.cx2() - a.cx2()) * (b.cx2() - a.cx2()))
        by (nonlinear_arith);
    assert((a.cy2() - b.cy2()) * (a.cy2() - b.cy2()) == (b.cy2() - a.cy2()) * (b.cy2() - a.cy2()))
        by (nonlinear_arith);
}

/// Distances are those of the centres: with both doubled, `dx` across and `dy`
/// down, they are within `num / den` times a length if and only if the square of
/// `den` times the distance is no more than that of `2 * num` times the length.
pub proof fn distances_are_of_centres(a: Block, b: Block, num: int, den: int, length: int)
    ensures
        ({
            let dx = (2 * a.x + a.w) - (2 * b.x + b.w);
            let dy = (2 * a.y + a.h) - (2 * b.y + b.h);
            &&& centre_gap2(a, b) == dx * dx + dy * dy
            &&& within(a, b, num, den, length) <==> (den * den) * (dx * dx + dy * dy) <= (4 * (num
                * num)) * (length * length)
        }),
{
}

/// Blocks that are within one distance are within any longer one.
pub proof fn longer_reaches_hold_no_less(
    a: Block,
    b: Block,
    num: int,
    den: int,
    short: int,
    long: int,
)
    requires
        0 <= short <= long,
        within(a, b, num, den, short),
    ensures
        within(a, b, num, den, long),
{
    assert(4 * (num * num) * (short * short) <= 4 * (num * num) * (long * long)) by (nonlinear_arith)
        requires
            0 <= short <= long,
    ;
}

} // verus!
