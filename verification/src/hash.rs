//! The average hash of a frame: one bit for each of sixty-four cells.

use crate::digits::digit_text;
use crate::rank::Rank;
use vstd::prelude::*;
use vstd::string::StringExecFns;

verus! {

/// The number of cells along each edge.
pub const SIDE: u32 = 8;

/// The pixels of a cell: columns from `x0` up to `x1`, rows from `y0` up to
/// `y1`.
#[derive(Clone, Copy, PartialEq, Eq, Structural)]
pub struct HashCell {
    pub x0: u32,
    pub y0: u32,
    pub x1: u32,
    pub y1: u32,
}

/// The start of the part number `c` of `n` pixels cut into eight.
pub open spec fn part_start(c: int, n: int) -> int {
    c * n / 8
}

/// The end of the part: the start of the next one, but at least one pixel on.
pub open spec fn part_end(c: int, n: int) -> int {
    crate::grid::least(
        crate::blocks::most(part_start(c + 1, n), part_start(c, n) + 1),
        n,
    )
}

fn part(c: u32, n: u32) -> (r: (u32, u32))
    requires
        c < SIDE,
        n > 0,
    ensures
        r.0 == part_start(c as int, n as int),
        r.1 == part_end(c as int, n as int),
        r.0 < r.1 <= n,
{
    assert(0 <= c * n <= 8 * n && 0 <= (c + 1) * n <= 8 * n) by (nonlinear_arith)
        requires
            0 <= c < 8,
            n > 0,
    ;
    let from: u64 = c as u64 * n as u64 / 8;
    let next: u64 = (c as u64 + 1) * n as u64 / 8;
    assert(from <= next <= n && from < n) by (nonlinear_arith)
        requires
            from == c * n / 8,
            next == (c + 1) * n / 8,
            0 <= c < 8,
            n > 0,
    ;
    let to: u64 = if next >= from + 1 {
        next
    } else {
        from + 1
    };
    (
        from as u32,
        if to <= n as u64 {
            to as u32
        } else {
            n
        },
    )
}

/// The pixels of a cell.
pub fn hash_cell(cx: u32, cy: u32, w: u32, h: u32) -> (r: HashCell)
    requires
        cx < SIDE,
        cy < SIDE,
        w > 0,
        h > 0,
    ensures
        r.x0 == part_start(cx as int, w as int),
        r.x1 == part_end(cx as int, w as int),
        r.y0 == part_start(cy as int, h as int),
        r.y1 == part_end(cy as int, h as int),
        r.x0 < r.x1 <= w,
        r.y0 < r.y1 <= h,
{
    let a = part(cx, w);
    let b = part(cy, h);
    HashCell { x0: a.0, y0: b.0, x1: a.1, y1: b.1 }
}

/// Whether the bit of cell `i` is set: the first cell has the highest bit.
pub open spec fn bit_of(bits: u64, i: int) -> bool {
    (bits >> ((63 - i) as u64)) & 1 == 1
}

/// Whether the bits are the hash of some cells: those above the mean have
/// theirs set.
pub open spec fn is_hash(bits: u64, cells: Seq<Rank>, mean: Rank) -> bool {
    forall|i: int| 0 <= i < 64 ==> #[trigger] bit_of(bits, i) == (cells[i] > mean)
}

/// The hash of sixty-four cells, row by row.
pub fn average_hash(cells: &Vec<Rank>, mean: Rank) -> (bits: u64)
    requires
        cells@.len() == 64,
    ensures
        is_hash(bits, cells@, mean),
{
    let mut bits: u64 = 0;
    let mut i: u64 = 0;
    assert forall|k: int| 0 <= k < 64 implies !#[trigger] bit_of(0, k) by {
        let s: u64 = (63 - k) as u64;
        assert((0u64 >> s) & 1 == 0) by (bit_vector);
    }
    while i < 64
        invariant
            cells@.len() == 64,
            0 <= i <= 64,
            forall|k: int| 0 <= k < i ==> #[trigger] bit_of(bits, k) == (cells@[k] > mean),
            forall|k: int| i <= k < 64 ==> !#[trigger] bit_of(bits, k),
        decreases 64 - i,
    {
        if cells[i as usize] > mean {
            let ghost before = bits;
            let shift: u64 = 63 - i;
            bits = bits | (1u64 << shift);
            assert forall|k: int| 0 <= k < 64 implies #[trigger] bit_of(bits, k) == (k == i
                || bit_of(before, k)) by {
                let s: u64 = (63 - k) as u64;
                if k == i {
                    assert(((before | (1u64 << shift)) >> shift) & 1 == 1) by (bit_vector)
                        requires
                            shift < 64,
                    ;
                } else {
                    assert((((before | (1u64 << shift)) >> s) & 1) == ((before >> s) & 1))
                        by (bit_vector)
                        requires
                            shift < 64,
                            s < 64,
                            s != shift,
                    ;
                }
            }
        }
        i = i + 1;
    }
    bits
}

/// The digit number `k` of a hash: four bits, the highest first.
pub open spec fn nibble(bits: u64, k: int) -> u64 {
    (bits >> ((60 - 4 * k) as u64)) & 15
}

/// A hash in sixteen hexadecimal digits.
pub open spec fn hex(bits: u64) -> Seq<char> {
    Seq::new(16, |k: int| crate::digits::digit(nibble(bits, k) as int))
}

/// A hash in sixteen hexadecimal digits.
pub fn hex_text(bits: u64) -> (r: String)
    ensures
        r@ == hex(bits),
{
    let mut r = String::new();
    let mut k: u64 = 0;
    while k < 16
        invariant
            0 <= k <= 16,
            r@ == hex(bits).take(k as int),
        decreases 16 - k,
    {
        let shift: u64 = 60 - 4 * k;
        let d: u64 = (bits >> shift) & 15;
        assert((bits >> shift) & 15 < 16) by (bit_vector);
        r.append(digit_text(d as u8));
        assert(d == nibble(bits, k as int));
        assert(hex(bits)[k as int] == crate::digits::digit(d as int));
        k = k + 1;
        assert(r@ == hex(bits).take(k as int));
    }
    assert(hex(bits).take(16) == hex(bits));
    r
}

/// The hash of a frame's cells, in hexadecimal digits.
pub fn average_hash_hex(cells: &Vec<Rank>, mean: Rank) -> (r: String)
    requires
        cells@.len() == 64,
    ensures
        exists|bits: u64| #[trigger] is_hash(bits, cells@, mean) && r@ == hex(bits),
        r@.len() == 16,
{
    let bits = average_hash(cells, mean);
    hex_text(bits)
}

proof fn lemma_nibbles_decide(a: u64, b: u64)
    requires
        forall|k: int| 0 <= k < 16 ==> #[trigger] nibble(a, k) == nibble(b, k),
    ensures
        a == b,
{
    assert(nibble(a, 0) == nibble(b, 0));
    assert(nibble(a, 1) == nibble(b, 1));
    assert(nibble(a, 2) == nibble(b, 2));
    assert(nibble(a, 3) == nibble(b, 3));
    assert(nibble(a, 4) == nibble(b, 4));
    assert(nibble(a, 5) == nibble(b, 5));
    assert(nibble(a, 6) == nibble(b, 6));
    assert(nibble(a, 7) == nibble(b, 7));
    assert(nibble(a, 8) == nibble(b, 8));
    assert(nibble(a, 9) == nibble(b, 9));
    assert(nibble(a, 10) == nibble(b, 10));
    assert(nibble(a, 11) == nibble(b, 11));
    assert(nibble(a, 12) == nibble(b, 12));
    assert(nibble(a, 13) == nibble(b, 13));
    assert(nibble(a, 14) == nibble(b, 14));
    assert(nibble(a, 15) == nibble(b, 15));
    assert(a == b) by (bit_vector)
        requires
            (a >> 60) & 15 == (b >> 60) & 15,
            (a >> 56) & 15 == (b >> 56) & 15,
            (a >> 52) & 15 == (b >> 52) & 15,
            (a >> 48) & 15 == (b >> 48) & 15,
            (a >> 44) & 15 == (b >> 44) & 15,
            (a >> 40) & 15 == (b >> 40) & 15,
            (a >> 36) & 15 == (b >> 36) & 15,
            (a >> 32) & 15 == (b >> 32) & 15,
            (a >> 28) & 15 == (b >> 28) & 15,
            (a >> 24) & 15 == (b >> 24) & 15,
            (a >> 20) & 15 == (b >> 20) & 15,
            (a >> 16) & 15 == (b >> 16) & 15,
            (a >> 12) & 15 == (b >> 12) & 15,
            (a >> 8) & 15 == (b >> 8) & 15,
            (a >> 4) & 15 == (b >> 4) & 15,
            (a >> 0) & 15 == (b >> 0) & 15,
    ;
}

proof fn lemma_bits_decide(a: u64, b: u64)
    requires
        forall|i: int| 0 <= i < 64 ==> #[trigger] bit_of(a, i) == bit_of(b, i),
    ensures
        a == b,
{
    assert forall|k: int| 0 <= k < 16 implies #[trigger] nibble(a, k) == nibble(b, k) by {
        let s: u64 = (60 - 4 * k) as u64;
        let t: u64 = (s + 1) as u64;
        let u: u64 = (s + 2) as u64;
        let v: u64 = (s + 3) as u64;
        assert(bit_of(a, 63 - s) == bit_of(b, 63 - s));
        assert(bit_of(a, 63 - t) == bit_of(b, 63 - t));
        assert(bit_of(a, 63 - u) == bit_of(b, 63 - u));
        assert(bit_of(a, 63 - v) == bit_of(b, 63 - v));
        assert((a >> s) & 15 == (b >> s) & 15) by (bit_vector)
            requires
                s <= 60,
                t == s + 1,
                u == s + 2,
                v == s + 3,
                ((a >> s) & 1 == 1) == ((b >> s) & 1 == 1),
                ((a >> t) & 1 == 1) == ((b >> t) & 1 == 1),
                ((a >> u) & 1 == 1) == ((b >> u) & 1 == 1),
                ((a >> v) & 1 == 1) == ((b >> v) & 1 == 1),
        ;
    }
    lemma_nibbles_decide(a, b);
}

/// Cells have one hash.
pub proof fn the_hash_is_unique(a: u64, b: u64, cells: Seq<Rank>, mean: Rank)
    requires
        is_hash(a, cells, mean),
        is_hash(b, cells, mean),
    ensures
        a == b,
{
    assert forall|i: int| 0 <= i < 64 implies #[trigger] bit_of(a, i) == bit_of(b, i) by {}
    lemma_bits_decide(a, b);
}

/// Cells mirrored from left to right.
pub open spec fn mirrored(cells: Seq<Rank>) -> Seq<Rank> {
    Seq::new(64, |i: int| cells[8 * (i / 8) + 7 - i % 8])
}

/// Mirroring the cells mirrors the hash.
pub proof fn mirrored_cells_mirror_the_hash(a: u64, b: u64, cells: Seq<Rank>, mean: Rank, i: int)
    requires
        is_hash(a, cells, mean),
        is_hash(b, mirrored(cells), mean),
        0 <= i < 64,
    ensures
        bit_of(b, i) == bit_of(a, 8 * (i / 8) + 7 - i % 8),
{
    assert(bit_of(b, i) == (mirrored(cells)[i] > mean));
    assert(bit_of(a, 8 * (i / 8) + 7 - i % 8) == (cells[8 * (i / 8) + 7 - i % 8] > mean));
}

/// Different hashes have different digits.
pub proof fn hex_tells_hashes_apart(a: u64, b: u64)
    requires
        hex(a) == hex(b),
    ensures
        a == b,
{
    assert forall|k: int| 0 <= k < 16 implies #[trigger] nibble(a, k) == nibble(b, k) by {
        let s: u64 = (60 - 4 * k) as u64;
        assert((a >> s) & 15 < 16) by (bit_vector);
        assert((b >> s) & 15 < 16) by (bit_vector);
        assert(hex(a)[k] == crate::digits::digit(nibble(a, k) as int));
        assert(hex(b)[k] == crate::digits::digit(nibble(b, k) as int));
    }
    lemma_nibbles_decide(a, b);
}

/// Eight parts cover an edge without gaps: the first starts at its start, each
/// starts where its share of the whole does, rounded down, and ends where the next
/// one starts, or one pixel on where that is nothing; the last ends at its end.
pub proof fn parts_cover_an_edge(c: int, n: int)
    requires
        0 <= c < 8,
        0 < n,
    ensures
        part_start(0, n) == 0,
        8 * part_start(c, n) <= c * n,
        c * n < 8 * (part_start(c, n) + 1),
        part_end(7, n) == n,
        part_start(c, n) < part_end(c, n) <= n,
        n >= 8 && c < 7 ==> part_end(c, n) == part_start(c + 1, n),
        part_end(c, n) == part_start(c, n) + 1 || part_end(c, n) == part_start(c + 1, n),
        part_end(c, n) >= part_start(c + 1, n),
{
    assert(0 <= c * n) by (nonlinear_arith)
        requires
            0 <= c,
            0 < n,
    ;
    assert((c + 1) * n == c * n + n) by (nonlinear_arith);
    assert(c * n <= 7 * n) by (nonlinear_arith)
        requires
            c < 8,
            0 < n,
    ;
    assert(0 * n == 0 && (7 + 1) * n == 8 * n) by (nonlinear_arith);
}

/// The first cell has the highest bit and the last one the lowest: a hash is the
/// sum of the powers of two of its bits, four of which make a digit.
pub proof fn four_bits_make_a_digit(bits: u64, k: int)
    requires
        0 <= k < 16,
    ensures
        nibble(bits, k) == (if bit_of(bits, 4 * k) {
            8int
        } else {
            0
        }) + (if bit_of(bits, 4 * k + 1) {
            4int
        } else {
            0
        }) + (if bit_of(bits, 4 * k + 2) {
            2int
        } else {
            0
        }) + (if bit_of(bits, 4 * k + 3) {
            1int
        } else {
            0
        }),
        bit_of(1, 63),
        bit_of(0x8000_0000_0000_0000, 0),
        bit_of(bits, 63) <==> bits % 2 == 1,
        bit_of(bits, 0) <==> bits >= 0x8000_0000_0000_0000,
{
    let s: u64 = (60 - 4 * k) as u64;
    let t: u64 = (s + 1) as u64;
    let u: u64 = (s + 2) as u64;
    let v: u64 = (s + 3) as u64;
    let a: u64 = (bits >> v) & 1;
    let b: u64 = (bits >> u) & 1;
    let c: u64 = (bits >> t) & 1;
    let d: u64 = (bits >> s) & 1;
    assert((bits >> s) & 15 == 8 * a + 4 * b + 2 * c + d && a <= 1 && b <= 1 && c <= 1 && d <= 1)
        by (bit_vector)
        requires
            s <= 60,
            t == s + 1,
            u == s + 2,
            v == s + 3,
            a == (bits >> v) & 1,
            b == (bits >> u) & 1,
            c == (bits >> t) & 1,
            d == (bits >> s) & 1,
    ;
    assert((1u64 >> 0) & 1 == 1) by (bit_vector);
    assert((0x8000_0000_0000_0000u64 >> 63) & 1 == 1) by (bit_vector);
    assert(((bits >> 0) & 1 == 1) == (bits % 2 == 1)) by (bit_vector);
    assert(((bits >> 63) & 1 == 1) == (bits >= 0x8000_0000_0000_0000)) by (bit_vector);
}

/// A cell above the mean sets its bit, and one at the mean or below does not.
pub proof fn bits_say_which_cells_are_bright(bits: u64, cells: Seq<Rank>, mean: Rank, i: int)
    requires
        is_hash(bits, cells, mean),
        0 <= i < 64,
    ensures
        cells[i] > mean ==> bit_of(bits, i),
        cells[i] <= mean ==> !bit_of(bits, i),
        hex(bits).len() == 16,
        hex(bits)[i / 4] == crate::digits::digit(nibble(bits, i / 4) as int),
{
    assert(bit_of(bits, i) == (cells[i] > mean));
}

} // verus!
