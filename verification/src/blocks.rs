//! The blocks of a frame with what was measured on them.

use crate::clusters::Links;
use crate::eyes::EyePair;
use crate::grid::{Block, Frame};
use crate::marks::{AT_020, AT_045, AT_060};
use crate::rank::Rank;
use crate::selection::{highest, lowest};
use vstd::prelude::*;

verus! {

/// One block of a frame and its measurements.
#[derive(Clone, Copy)]
pub struct BlockMeta {
    pub rect: Block,
    /// How much its texture looks like eyes and brows.
    pub eye_band: Rank,
    /// Its average skin score.
    pub skin_density: Rank,
    /// How face-like its upper part is.
    pub face_boost: Rank,
    /// Its strongest radial-symmetry response.
    pub radial: Rank,
    /// Whether it is background.
    pub bg_suppressed: bool,
}

/// Whether a block shows a pupil: a sharp radial peak together with skin and
/// face-like gradients.
pub open spec fn shows_pupil(b: BlockMeta) -> bool {
    b.radial >= AT_060 && b.skin_density >= AT_020 && b.face_boost >= AT_045
}

/// Whether a member of a pair lies in a block.
pub open spec fn holds_member(b: BlockMeta, pair: EyePair) -> bool {
    b.rect.touches(pair.m1.0 as int, pair.m1.1 as int) || b.rect.touches(
        pair.m2.0 as int,
        pair.m2.1 as int,
    )
}

/// Whether a member of any pair lies in a block.
pub open spec fn holds_any_member(b: BlockMeta, pairs: Seq<EyePair>) -> bool {
    exists|k: int| 0 <= k < pairs.len() && holds_member(b, #[trigger] pairs[k])
}

/// Whether a block shows a pupil.
pub fn pupil_like(b: &BlockMeta) -> (r: bool)
    ensures
        r == shows_pupil(*b),
        r == (b.radial >= AT_060 && b.skin_density >= AT_020 && b.face_boost >= AT_045),
{
    b.radial >= AT_060 && b.skin_density >= AT_020 && b.face_boost >= AT_045
}

/// Whether a member of any pair lies in a block.
pub fn block_has_pair_member(b: &BlockMeta, pairs: &Vec<EyePair>) -> (r: bool)
    ensures
        r == holds_any_member(*b, pairs@),
{
    let mut k: usize = 0;
    while k < pairs.len()
        invariant
            0 <= k <= pairs@.len(),
            forall|j: int| 0 <= j < k ==> !holds_member(*b, #[trigger] pairs@[j]),
        decreases pairs@.len() - k,
    {
        let p = &pairs[k];
        if b.rect.reaches(p.m1.0, p.m1.1) || b.rect.reaches(p.m2.0, p.m2.1) {
            assert(holds_member(*b, pairs@[k as int]));
            return true;
        }
        k = k + 1;
    }
    false
}

/// The larger of two numbers.
pub open spec fn most(a: int, b: int) -> int {
    if a >= b {
        a
    } else {
        b
    }
}

/// The rectangles of some blocks.
pub open spec fn rects(blocks: Seq<BlockMeta>, pool: Seq<usize>) -> Seq<Block> {
    Seq::new(pool.len(), |k: int| blocks[pool[k] as int].rect)
}

/// Which blocks of a pool are near each other: those whose centres are no
/// further apart than `num / den` times a length.
pub open spec fn web_of(
    blocks: Seq<BlockMeta>,
    pool: Seq<usize>,
    num: int,
    den: int,
    length: int,
) -> crate::clusters::Web {
    crate::clusters::Web::Blocks { rects: rects(blocks, pool), num, den, length }
}

/// The numbers that a list of positions in a pool stands for.
pub open spec fn named(pool: Seq<usize>, positions: Seq<usize>) -> Seq<usize> {
    Seq::new(positions.len(), |k: int| pool[positions[k] as int])
}

/// The clusters of the blocks of a pool.
pub open spec fn clusters_of(
    blocks: Seq<BlockMeta>,
    pool: Seq<usize>,
    num: int,
    den: int,
    length: int,
) -> Seq<Seq<usize>> {
    let web = web_of(blocks, pool, num, den, length);
    Seq::new(web.clusters().len(), |c: int| named(pool, web.clusters()[c]))
}

/// The clusters of the blocks of a pool.
pub fn cluster_blocks(
    blocks: &Vec<BlockMeta>,
    pool: &Vec<usize>,
    num: u32,
    den: u32,
    length: u32,
) -> (r: Vec<Vec<usize>>)
    requires
        crate::selection::all_below(pool@, blocks@.len() as int),
        num <= 0xff,
        den <= 0xff,
    ensures
        r@.len() == clusters_of(blocks@, pool@, num as int, den as int, length as int).len(),
        forall|c: int|
            0 <= c < r@.len() ==> (#[trigger] r@[c])@ == clusters_of(
                blocks@,
                pool@,
                num as int,
                den as int,
                length as int,
            )[c] && crate::selection::all_below(r@[c]@, blocks@.len() as int) && r@[c]@.len() > 0,
{
    let mut list: Vec<Block> = Vec::new();
    let mut i: usize = 0;
    while i < pool.len()
        invariant
            crate::selection::all_below(pool@, blocks@.len() as int),
            0 <= i <= pool@.len(),
            list@.len() == i,
            forall|k: int| 0 <= k < i ==> list@[k] == #[trigger] rects(blocks@, pool@)[k],
        decreases pool@.len() - i,
    {
        list.push(blocks[pool[i]].rect);
        i = i + 1;
    }
    assert(list@ == rects(blocks@, pool@));
    let ghost web = web_of(blocks@, pool@, num as int, den as int, length as int);
    let links = Links::Blocks { rects: list, num, den, length };
    assert(links@ == web);
    assert(links@.n() == pool@.len());
    assert(pool.len() <= usize::MAX);
    let groups = links.grouped();
    proof {
        web.block_links_are_symmetric();
        assert forall|d: int| 0 <= d < groups@.len() implies (#[trigger] groups@[d])@.len() > 0 by {
            crate::clusters::clusters_list_only_things(web, d);
        }
    }
    let mut r: Vec<Vec<usize>> = Vec::new();
    let mut c: usize = 0;
    while c < groups.len()
        invariant
            crate::selection::all_below(pool@, blocks@.len() as int),
            web == web_of(blocks@, pool@, num as int, den as int, length as int),
            groups@.len() == web.clusters().len(),
            forall|d: int|
                0 <= d < groups@.len() ==> (#[trigger] groups@[d])@ == web.clusters()[d]
                    && crate::selection::all_below(groups@[d]@, pool@.len() as int)
                    && groups@[d]@.len() > 0,
            0 <= c <= groups@.len(),
            r@.len() == c,
            forall|d: int|
                0 <= d < c ==> (#[trigger] r@[d])@ == named(pool@, web.clusters()[d])
                    && crate::selection::all_below(r@[d]@, blocks@.len() as int) && r@[d]@.len()
                    > 0,
        decreases groups@.len() - c,
    {
        let mut members: Vec<usize> = Vec::new();
        let mut k: usize = 0;
        while k < groups[c].len()
            invariant
                crate::selection::all_below(pool@, blocks@.len() as int),
                c < groups@.len(),
                crate::selection::all_below(groups@[c as int]@, pool@.len() as int),
                0 <= k <= groups@[c as int]@.len(),
                members@ == named(pool@, groups@[c as int]@.take(k as int)),
                crate::selection::all_below(members@, blocks@.len() as int),
            decreases groups@[c as int]@.len() - k,
        {
            members.push(pool[groups[c][k]]);
            k = k + 1;
        }
        assert(groups@[c as int]@.take(k as int) == groups@[c as int]@);
        r.push(members);
        c = c + 1;
    }
    r
}

/// The clusters of a pool hold nothing but its blocks.
pub proof fn clusters_hold_only_the_pool(
    blocks: Seq<BlockMeta>,
    pool: Seq<usize>,
    num: int,
    den: int,
    length: int,
    c: int,
    x: usize,
)
    requires
        pool.len() <= usize::MAX,
        0 <= c < clusters_of(blocks, pool, num, den, length).len(),
        clusters_of(blocks, pool, num, den, length)[c].contains(x),
    ensures
        pool.contains(x),
{
    let web = web_of(blocks, pool, num, den, length);
    let cluster = clusters_of(blocks, pool, num, den, length)[c];
    web.block_links_are_symmetric();
    crate::clusters::clusters_list_only_things(web, c);
    let k = choose|k: int| 0 <= k < cluster.len() && cluster[k] == x;
    let j = web.clusters()[c][k];
    assert(pool[j as int] == x);
}

/// Twice the columns of the centres of some blocks.
pub open spec fn columns2(blocks: Seq<BlockMeta>, pool: Seq<usize>) -> Seq<u64> {
    Seq::new(pool.len(), |k: int| blocks[pool[k] as int].rect.cx2() as u64)
}

/// Twice the rows of the centres of some blocks.
pub open spec fn rows2(blocks: Seq<BlockMeta>, pool: Seq<usize>) -> Seq<u64> {
    Seq::new(pool.len(), |k: int| blocks[pool[k] as int].rect.cy2() as u64)
}

/// The span of some doubled coordinates, of one block at least.
pub open spec fn span2(v: Seq<u64>, block: int) -> int {
    most(crate::selection::max_of(v) - crate::selection::min_of(v), 2 * block)
}

/// Twice the columns of the centres of some blocks.
pub fn columns_of(blocks: &Vec<BlockMeta>, pool: &Vec<usize>) -> (r: Vec<u64>)
    requires
        crate::selection::all_below(pool@, blocks@.len() as int),
    ensures
        r@ == columns2(blocks@, pool@),
{
    let mut r: Vec<u64> = Vec::new();
    let mut k: usize = 0;
    while k < pool.len()
        invariant
            crate::selection::all_below(pool@, blocks@.len() as int),
            0 <= k <= pool@.len(),
            r@ == columns2(blocks@, pool@.take(k as int)),
        decreases pool@.len() - k,
    {
        r.push(blocks[pool[k]].rect.centre_x2());
        k = k + 1;
    }
    assert(pool@.take(k as int) == pool@);
    r
}

/// Twice the rows of the centres of some blocks.
pub fn rows_of(blocks: &Vec<BlockMeta>, pool: &Vec<usize>) -> (r: Vec<u64>)
    requires
        crate::selection::all_below(pool@, blocks@.len() as int),
    ensures
        r@ == rows2(blocks@, pool@),
{
    let mut r: Vec<u64> = Vec::new();
    let mut k: usize = 0;
    while k < pool.len()
        invariant
            crate::selection::all_below(pool@, blocks@.len() as int),
            0 <= k <= pool@.len(),
            r@ == rows2(blocks@, pool@.take(k as int)),
        decreases pool@.len() - k,
    {
        r.push(blocks[pool[k]].rect.centre_y2());
        k = k + 1;
    }
    assert(pool@.take(k as int) == pool@);
    r
}

/// The span of some doubled coordinates, of one block at least.
pub fn span_of(v: &Vec<u64>, block: u32) -> (r: u64)
    requires
        v@.len() > 0,
    ensures
        r == span2(v@, block as int),
{
    proof {
        crate::selection::extremes_bound_the_list(v@);
    }
    let span: u64 = highest(v) - lowest(v);
    let least: u64 = 2 * (block as u64);
    if span >= least {
        span
    } else {
        least
    }
}

/// The pixels that some blocks span: columns from `left` up to `right`, rows
/// from `top` up to `bottom`.
#[derive(Clone, Copy, PartialEq, Eq, Structural)]
pub struct Bounds {
    pub left: u64,
    pub top: u64,
    pub right: u64,
    pub bottom: u64,
}

/// The left edges of some blocks.
pub open spec fn lefts(blocks: Seq<BlockMeta>, pool: Seq<usize>) -> Seq<u64> {
    Seq::new(pool.len(), |k: int| blocks[pool[k] as int].rect.x as u64)
}

/// The upper edges of some blocks.
pub open spec fn tops(blocks: Seq<BlockMeta>, pool: Seq<usize>) -> Seq<u64> {
    Seq::new(pool.len(), |k: int| blocks[pool[k] as int].rect.y as u64)
}

/// The right edges of some blocks.
pub open spec fn rights(blocks: Seq<BlockMeta>, pool: Seq<usize>) -> Seq<u64> {
    Seq::new(
        pool.len(),
        |k: int| (blocks[pool[k] as int].rect.x + blocks[pool[k] as int].rect.w) as u64,
    )
}

/// The lower edges of some blocks.
pub open spec fn bottoms(blocks: Seq<BlockMeta>, pool: Seq<usize>) -> Seq<u64> {
    Seq::new(
        pool.len(),
        |k: int| (blocks[pool[k] as int].rect.y + blocks[pool[k] as int].rect.h) as u64,
    )
}

/// What some blocks span.
pub open spec fn bounds_of(blocks: Seq<BlockMeta>, pool: Seq<usize>) -> Bounds {
    Bounds {
        left: crate::selection::min_of(lefts(blocks, pool)),
        top: crate::selection::min_of(tops(blocks, pool)),
        right: crate::selection::max_of(rights(blocks, pool)),
        bottom: crate::selection::max_of(bottoms(blocks, pool)),
    }
}

/// Whether all blocks lie in a frame.
pub open spec fn all_framed(blocks: Seq<BlockMeta>, frame: Frame) -> bool {
    forall|i: int| 0 <= i < blocks.len() ==> frame.contains_block((#[trigger] blocks[i]).rect)
}

/// Whether bounds lie in a frame.
pub open spec fn framed(b: Bounds, frame: Frame) -> bool {
    b.left <= b.right <= frame.w && b.top <= b.bottom <= frame.h
}

/// What some blocks span holds each of them, and lies in the frame if they do.
pub proof fn bounds_hold_the_blocks(blocks: Seq<BlockMeta>, pool: Seq<usize>, frame: Frame)
    requires
        pool.len() > 0,
        crate::selection::all_below(pool, blocks.len() as int),
        all_framed(blocks, frame),
    ensures
        framed(bounds_of(blocks, pool), frame),
        forall|k: int|
            0 <= k < pool.len() ==> {
                let r = blocks[#[trigger] pool[k] as int].rect;
                let b = bounds_of(blocks, pool);
                b.left <= r.x && r.x + r.w <= b.right && b.top <= r.y && r.y + r.h <= b.bottom
            },
{
    crate::selection::extremes_bound_the_list(lefts(blocks, pool));
    crate::selection::extremes_bound_the_list(tops(blocks, pool));
    crate::selection::extremes_bound_the_list(rights(blocks, pool));
    crate::selection::extremes_bound_the_list(bottoms(blocks, pool));
    let b = bounds_of(blocks, pool);
    assert forall|k: int| 0 <= k < pool.len() implies {
        let r = blocks[#[trigger] pool[k] as int].rect;
        b.left <= r.x && r.x + r.w <= b.right && b.top <= r.y && r.y + r.h <= b.bottom
    } by {
        let r = blocks[pool[k] as int].rect;
        assert(lefts(blocks, pool)[k] == r.x);
        assert(tops(blocks, pool)[k] == r.y);
        assert(rights(blocks, pool)[k] == r.x + r.w);
        assert(bottoms(blocks, pool)[k] == r.y + r.h);
    }
    assert(pool[0] < blocks.len());
    let r = choose|k: int| 0 <= k < pool.len() && rights(blocks, pool)[k] == b.right;
    let s = choose|k: int| 0 <= k < pool.len() && bottoms(blocks, pool)[k] == b.bottom;
    assert(frame.contains_block(blocks[pool[r] as int].rect));
    assert(frame.contains_block(blocks[pool[s] as int].rect));
}

/// What some blocks span.
pub fn span_box(blocks: &Vec<BlockMeta>, pool: &Vec<usize>) -> (r: Bounds)
    requires
        pool@.len() > 0,
        crate::selection::all_below(pool@, blocks@.len() as int),
    ensures
        r == bounds_of(blocks@, pool@),
{
    let mut list_l: Vec<u64> = Vec::new();
    let mut list_t: Vec<u64> = Vec::new();
    let mut list_r: Vec<u64> = Vec::new();
    let mut list_b: Vec<u64> = Vec::new();
    let mut k: usize = 0;
    while k < pool.len()
        invariant
            crate::selection::all_below(pool@, blocks@.len() as int),
            0 <= k <= pool@.len(),
            list_l@ == lefts(blocks@, pool@.take(k as int)),
            list_t@ == tops(blocks@, pool@.take(k as int)),
            list_r@ == rights(blocks@, pool@.take(k as int)),
            list_b@ == bottoms(blocks@, pool@.take(k as int)),
        decreases pool@.len() - k,
    {
        let rect = blocks[pool[k]].rect;
        list_l.push(rect.x as u64);
        list_t.push(rect.y as u64);
        list_r.push(rect.x as u64 + rect.w as u64);
        list_b.push(rect.y as u64 + rect.h as u64);
        k = k + 1;
    }
    assert(pool@.take(k as int) == pool@);
    Bounds {
        left: lowest(&list_l),
        top: lowest(&list_t),
        right: highest(&list_r),
        bottom: highest(&list_b),
    }
}

/// A block shows a pupil where its radial response reaches 0.60 on skin of 0.20
/// and face gradients of 0.45; whatever else is stronger, one of the three that is
/// weaker hides it, and none of them can be too strong.
pub proof fn pupils_need_all_three(b: BlockMeta)
    ensures
        b.radial < AT_060 ==> !shows_pupil(b),
        b.skin_density < AT_020 ==> !shows_pupil(b),
        b.face_boost < AT_045 ==> !shows_pupil(b),
        b.radial >= AT_060 && b.skin_density >= AT_020 && b.face_boost >= AT_045 ==> shows_pupil(b),
{
}

/// A pair has a member in a block if either member is at most half a block from
/// its centre, edges included, across and down.
pub proof fn members_lie_in_their_blocks(b: BlockMeta, pair: EyePair)
    ensures
        b.rect.x <= pair.m1.0 <= b.rect.x + b.rect.w && b.rect.y <= pair.m1.1 <= b.rect.y + b.rect.h
            ==> holds_member(b, pair),
        b.rect.x <= pair.m2.0 <= b.rect.x + b.rect.w && b.rect.y <= pair.m2.1 <= b.rect.y + b.rect.h
            ==> holds_member(b, pair),
        holds_member(b, pair) ==> (b.rect.x <= pair.m1.0 <= b.rect.x + b.rect.w && b.rect.y
            <= pair.m1.1 <= b.rect.y + b.rect.h) || (b.rect.x <= pair.m2.0 <= b.rect.x + b.rect.w
            && b.rect.y <= pair.m2.1 <= b.rect.y + b.rect.h),
{
}

/// One pair with a member in a block is enough, and more pairs never take it away.
pub proof fn more_pairs_hold_no_less(b: BlockMeta, pairs: Seq<EyePair>, pair: EyePair)
    ensures
        holds_any_member(b, pairs.push(pair)) == (holds_any_member(b, pairs) || holds_member(
            b,
            pair,
        )),
        !holds_any_member(b, Seq::empty()),
{
    let more = pairs.push(pair);
    if holds_any_member(b, pairs) {
        let k = choose|k: int| 0 <= k < pairs.len() && holds_member(b, #[trigger] pairs[k]);
        assert(holds_member(b, more[k]));
    }
    if holds_member(b, pair) {
        assert(more[pairs.len() as int] == pair);
    }
    if holds_any_member(b, more) {
        let k = choose|k: int| 0 <= k < more.len() && holds_member(b, #[trigger] more[k]);
        if k < pairs.len() {
            assert(pairs[k] == more[k]);
        }
    }
}

/// What some blocks span is no larger than it has to be: a block of them lies on
/// each of its four edges.
pub proof fn bounds_are_tight(blocks: Seq<BlockMeta>, pool: Seq<usize>)
    requires
        pool.len() > 0,
    ensures
        exists|k: int|
            0 <= k < pool.len() && blocks[#[trigger] pool[k] as int].rect.x == bounds_of(
                blocks,
                pool,
            ).left,
        exists|k: int|
            0 <= k < pool.len() && blocks[#[trigger] pool[k] as int].rect.y == bounds_of(
                blocks,
                pool,
            ).top,
        exists|k: int|
            0 <= k < pool.len() && blocks[#[trigger] pool[k] as int].rect.x
                + blocks[pool[k] as int].rect.w == bounds_of(blocks, pool).right,
        exists|k: int|
            0 <= k < pool.len() && blocks[#[trigger] pool[k] as int].rect.y
                + blocks[pool[k] as int].rect.h == bounds_of(blocks, pool).bottom,
{
    crate::selection::extremes_bound_the_list(lefts(blocks, pool));
    crate::selection::extremes_bound_the_list(tops(blocks, pool));
    crate::selection::extremes_bound_the_list(rights(blocks, pool));
    crate::selection::extremes_bound_the_list(bottoms(blocks, pool));
    let b = bounds_of(blocks, pool);
    let l = choose|k: int| 0 <= k < pool.len() && lefts(blocks, pool)[k] == b.left;
    let t = choose|k: int| 0 <= k < pool.len() && tops(blocks, pool)[k] == b.top;
    let r = choose|k: int| 0 <= k < pool.len() && rights(blocks, pool)[k] == b.right;
    let s = choose|k: int| 0 <= k < pool.len() && bottoms(blocks, pool)[k] == b.bottom;
    assert(blocks[pool[l] as int].rect.x == b.left);
    assert(blocks[pool[t] as int].rect.y == b.top);
    assert(blocks[pool[r] as int].rect.x + blocks[pool[r] as int].rect.w == b.right);
    assert(blocks[pool[s] as int].rect.y + blocks[pool[s] as int].rect.h == b.bottom);
}

/// A span is at least one block, and at least as wide as any two of its numbers
/// are apart; it is no more than that.
pub proof fn spans_cover_their_numbers(v: Seq<u64>, block: int, i: int, j: int)
    requires
        0 <= i < v.len(),
        0 <= j < v.len(),
    ensures
        span2(v, block) >= 2 * block,
        span2(v, block) >= v[i] - v[j],
        span2(v, block) == 2 * block || exists|a: int, b: int|
            0 <= a < v.len() && 0 <= b < v.len() && span2(v, block) == #[trigger] v[a]
                - #[trigger] v[b],
{
    crate::selection::extremes_bound_the_list(v);
    let a = choose|a: int| 0 <= a < v.len() && v[a] == crate::selection::max_of(v);
    let b = choose|b: int| 0 <= b < v.len() && v[b] == crate::selection::min_of(v);
    assert(v[a] - v[b] == crate::selection::max_of(v) - crate::selection::min_of(v));
}

/// A block of the pool that is near one of a cluster belongs to that cluster.
pub proof fn near_blocks_share_a_cluster(
    blocks: Seq<BlockMeta>,
    pool: Seq<usize>,
    num: int,
    den: int,
    length: int,
    c: int,
    x: usize,
    j: int,
)
    requires
        pool.len() <= usize::MAX,
        0 <= c < clusters_of(blocks, pool, num, den, length).len(),
        clusters_of(blocks, pool, num, den, length)[c].contains(x),
        0 <= j < pool.len(),
        crate::distance::within(
            blocks[x as int].rect,
            blocks[pool[j] as int].rect,
            num,
            den,
            length,
        ),
    ensures
        clusters_of(blocks, pool, num, den, length)[c].contains(pool[j]),
{
    let web = web_of(blocks, pool, num, den, length);
    let cluster = clusters_of(blocks, pool, num, den, length)[c];
    web.block_links_are_symmetric();
    crate::clusters::clusters_list_only_things(web, c);
    let k = choose|k: int| 0 <= k < cluster.len() && cluster[k] == x;
    let p = web.clusters()[c][k];
    assert(pool[p as int] == x);
    assert(rects(blocks, pool)[p as int] == blocks[x as int].rect);
    assert(rects(blocks, pool)[j] == blocks[pool[j] as int].rect);
    assert(web.clusters()[c].contains(p));
    crate::clusters::near_things_share_a_cluster(web, c, p as int, j);
    let m = choose|m: int| 0 <= m < web.clusters()[c].len() && web.clusters()[c][m] == j as usize;
    assert(cluster[m] == pool[j]);
}

/// Every block of the pool belongs to some cluster.
pub proof fn every_block_has_a_cluster(
    blocks: Seq<BlockMeta>,
    pool: Seq<usize>,
    num: int,
    den: int,
    length: int,
    j: int,
)
    requires
        pool.len() <= usize::MAX,
        0 <= j < pool.len(),
    ensures
        exists|c: int|
            0 <= c < clusters_of(blocks, pool, num, den, length).len() && (
            #[trigger] clusters_of(blocks, pool, num, den, length)[c]).contains(pool[j]),
{
    let web = web_of(blocks, pool, num, den, length);
    web.block_links_are_symmetric();
    crate::clusters::clusters_part_the_things(web);
    assert(web.lists(j as usize));
    let c = choose|c: int|
        0 <= c < web.clusters().len() && (#[trigger] web.clusters()[c]).contains(j as usize);
    let m = choose|m: int| 0 <= m < web.clusters()[c].len() && web.clusters()[c][m] == j as usize;
    assert(clusters_of(blocks, pool, num, den, length)[c][m] == pool[j]);
}

} // verus!
