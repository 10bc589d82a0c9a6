//! The mass of the subject: clusters of blocks with skin, eyes or face
//! gradients, and the one that the point is drawn to.

use crate::blocks::{cluster_blocks, columns_of, rows_of, span_of, BlockMeta};
use crate::grid::Frame;
use crate::marks::{AT_008, AT_012, AT_018};
use crate::rank::Rank;
use crate::ranking::first_max_above;
use crate::selection::{all_of, sift};
use vstd::prelude::*;

verus! {

/// The number of blocks that a cluster needs to count as a mass.
pub const MIN_MASS: usize = 4;

/// The blocks of a frame and the strength of their signals.
pub struct MassField {
    pub frame: Frame,
    pub blocks: Vec<BlockMeta>,
    /// The skin, eye and face signals of each block together.
    pub signal: Vec<Rank>,
}

/// The shape of a mass.
pub struct MassProfile {
    /// Twice the width that the centres span, of one block at least.
    pub span_x2: u64,
    /// Twice the height that the centres span, of one block at least.
    pub span_y2: u64,
    /// Whether the mass is a level bar: at most 1.25 blocks high and at least
    /// 3 blocks wide.
    pub is_bar: bool,
}

impl MassField {
    /// The number of blocks.
    pub open spec fn n(&self) -> nat {
        self.blocks@.len()
    }

    /// There is a signal for each block.
    pub open spec fn well_formed(&self) -> bool {
        self.signal@.len() == self.n()
    }

    /// The blocks with a signal, or with an eye band on skin.
    pub open spec fn massive(&self) -> Seq<bool> {
        Seq::new(
            self.n(),
            |i: int|
                self.signal@[i] >= AT_018 || (self.blocks@[i].skin_density >= AT_012
                    && self.blocks@[i].eye_band >= AT_008),
        )
    }

    /// The blocks that can belong to a mass.
    pub open spec fn candidates(&self) -> Seq<usize> {
        crate::selection::sifted(crate::selection::every(self.n()), self.massive())
    }

    /// The clusters of these blocks: those within 1.6 blocks of each other hang
    /// together.
    pub open spec fn clusters(&self) -> Seq<Seq<usize>> {
        crate::blocks::clusters_of(
            self.blocks@,
            self.candidates(),
            8,
            5,
            self.frame.block as int,
        )
    }

    /// Whether a profile is that of some blocks.
    pub open spec fn profiles(&self, pool: Seq<usize>, p: MassProfile) -> bool {
        let block = self.frame.block as int;
        &&& p.span_x2 == crate::blocks::span2(crate::blocks::columns2(self.blocks@, pool), block)
        &&& p.span_y2 == crate::blocks::span2(crate::blocks::rows2(self.blocks@, pool), block)
        &&& p.is_bar == (2 * p.span_y2 <= 5 * block && p.span_x2 >= 6 * block)
    }

    /// Whether cluster `c` is the mass: the first of those with the best score
    /// among the clusters of enough blocks, with a score above zero.
    pub open spec fn is_mass(&self, scores: Seq<Rank>, c: int) -> bool {
        &&& 0 <= c < scores.len()
        &&& self.clusters()[c].len() >= MIN_MASS
        &&& scores[c] > 0
        &&& forall|d: int|
            0 <= d < scores.len() && (#[trigger] self.clusters()[d]).len() >= MIN_MASS ==> scores[d]
                <= scores[c] && (d < c ==> scores[d] < scores[c])
    }

    /// The clusters of blocks that can belong to a mass.
    pub fn mass_clusters(&self) -> (r: Vec<Vec<usize>>)
        requires
            self.well_formed(),
        ensures
            r@.len() == self.clusters().len(),
            forall|c: int|
                0 <= c < r@.len() ==> (#[trigger] r@[c])@ == self.clusters()[c]
                    && crate::selection::all_below(r@[c]@, self.n() as int),
    {
        let mut keep: Vec<bool> = Vec::new();
        let mut i: usize = 0;
        while i < self.blocks.len()
            invariant
                self.well_formed(),
                0 <= i <= self.n(),
                keep@ == self.massive().take(i as int),
            decreases self.n() - i,
        {
            let b = &self.blocks[i];
            let counts: bool = self.signal[i] >= AT_018 || (b.skin_density >= AT_012 && b.eye_band
                >= AT_008);
            keep.push(counts);
            assert(counts == self.massive()[i as int]);
            i = i + 1;
            assert(keep@ == self.massive().take(i as int));
        }
        assert(keep@ == self.massive());
        let all = all_of(self.blocks.len());
        let candidates = sift(&all, &keep);
        cluster_blocks(&self.blocks, &candidates, 8, 5, self.frame.block)
    }

    /// The shape of a cluster.
    pub fn mass_profile(&self, cluster: &Vec<usize>) -> (r: MassProfile)
        requires
            cluster@.len() > 0,
            crate::selection::all_below(cluster@, self.n() as int),
        ensures
            self.profiles(cluster@, r),
    {
        let span_x2: u64 = span_of(&columns_of(&self.blocks, cluster), self.frame.block);
        let span_y2: u64 = span_of(&rows_of(&self.blocks, cluster), self.frame.block);
        let block: u128 = self.frame.block as u128;
        let is_bar: bool = 2 * (span_y2 as u128) <= 5 * block && span_x2 as u128 >= 6 * block;
        MassProfile { span_x2, span_y2, is_bar }
    }

    /// The cluster that is the mass, if any is.
    pub fn mass_of(&self, clusters: &Vec<Vec<usize>>, scores: &Vec<Rank>) -> (r: Option<usize>)
        requires
            clusters@.len() == self.clusters().len(),
            forall|c: int|
                0 <= c < clusters@.len() ==> (#[trigger] clusters@[c])@ == self.clusters()[c],
            scores@.len() == clusters@.len(),
        ensures
            r is None <==> forall|c: int|
                0 <= c < scores@.len() && (#[trigger] self.clusters()[c]).len() >= MIN_MASS
                    ==> scores@[c] <= 0,
            r matches Some(c) ==> self.is_mass(scores@, c as int),
    {
        let mut counted: Vec<Rank> = Vec::new();
        let mut c: usize = 0;
        while c < scores.len()
            invariant
                clusters@.len() == self.clusters().len(),
                forall|c: int|
                    0 <= c < clusters@.len() ==> (#[trigger] clusters@[c])@ == self.clusters()[c],
                scores@.len() == clusters@.len(),
                0 <= c <= scores@.len(),
                counted@.len() == c,
                forall|d: int|
                    0 <= d < c ==> #[trigger] counted@[d] == if self.clusters()[d].len()
                        >= MIN_MASS {
                        scores@[d]
                    } else {
                        0
                    },
            decreases scores@.len() - c,
        {
            let value: Rank = if clusters[c].len() >= MIN_MASS {
                scores[c]
            } else {
                0
            };
            counted.push(value);
            c = c + 1;
        }
        let best = first_max_above(counted.as_slice(), 0);
        proof {
            match best {
                None => {
                    assert forall|c: int|
                        0 <= c < scores@.len() && (#[trigger] self.clusters()[c]).len()
                            >= MIN_MASS implies scores@[c] <= 0 by {
                        assert(counted@[c] <= 0);
                    }
                },
                Some(b) => {
                    assert(counted@[b as int] > 0);
                    assert forall|d: int|
                        0 <= d < scores@.len() && (#[trigger] self.clusters()[d]).len()
                            >= MIN_MASS implies scores@[d] <= scores@[b as int] && (d < b
                        ==> scores@[d] < scores@[b as int]) by {
                        assert(counted@[d] == scores@[d]);
                    }
                    assert(self.clusters()[b as int].len() >= MIN_MASS);
                },
            }
        }
        best
    }
}

/// A block can belong to a mass if its signals reach 0.18 together, or if it has
/// an eye band of 0.08 on skin of 0.12; no other can.
pub proof fn masses_are_made_of_signals(field: MassField, i: usize)
    requires
        i < field.n(),
    ensures
        field.candidates().contains(i) <==> field.signal@[i as int] >= AT_018
            || (field.blocks@[i as int].skin_density >= AT_012 && field.blocks@[i as int].eye_band
            >= AT_008),
{
    let all = crate::selection::every(field.n());
    assert(all[i as int] == i);
    crate::selection::sifting_keeps_the_flagged(all, field.massive(), i);
}

/// Such blocks hang together: one whose centre is within 1.6 blocks of a block of
/// a cluster belongs to that cluster, and clusters hold nothing but such blocks.
pub proof fn near_signals_share_a_cluster(field: MassField, c: int, x: usize, y: usize)
    requires
        field.candidates().len() <= usize::MAX,
        0 <= c < field.clusters().len(),
        field.clusters()[c].contains(x),
        field.candidates().contains(y),
        ({
            let r = field.blocks@[x as int].rect;
            let s = field.blocks@[y as int].rect;
            let dx = (2 * r.x + r.w) - (2 * s.x + s.w);
            let dy = (2 * r.y + r.h) - (2 * s.y + s.h);
            25 * (dx * dx + dy * dy) <= 256 * (field.frame.block * field.frame.block)
        }),
    ensures
        field.clusters()[c].contains(y),
        field.candidates().contains(x),
{
    let block = field.frame.block as int;
    let pool = field.candidates();
    crate::distance::distances_are_of_centres(
        field.blocks@[x as int].rect,
        field.blocks@[y as int].rect,
        8,
        5,
        block,
    );
    let j = choose|j: int| 0 <= j < pool.len() && pool[j] == y;
    crate::blocks::near_blocks_share_a_cluster(field.blocks@, pool, 8, 5, block, c, x, j);
    crate::blocks::clusters_hold_only_the_pool(field.blocks@, pool, 8, 5, block, c, x);
}

/// A mass is a bar if its centres span 1.25 blocks at most down and three blocks
/// at least across; its spans cover any two of its blocks.
pub proof fn bars_are_low_and_wide(field: MassField, pool: Seq<usize>, p: MassProfile, i: int, j: int)
    requires
        field.profiles(pool, p),
        0 <= i < pool.len(),
        0 <= j < pool.len(),
    ensures
        p.is_bar <==> 4 * p.span_y2 <= 5 * (2 * field.frame.block) && p.span_x2 >= 3 * (2
            * field.frame.block),
        p.span_x2 >= 2 * field.frame.block,
        p.span_y2 >= 2 * field.frame.block,
        p.span_x2 >= crate::blocks::columns2(field.blocks@, pool)[i] - crate::blocks::columns2(
            field.blocks@,
            pool,
        )[j],
        p.span_y2 >= crate::blocks::rows2(field.blocks@, pool)[i] - crate::blocks::rows2(
            field.blocks@,
            pool,
        )[j],
{
    let block = field.frame.block as int;
    crate::blocks::spans_cover_their_numbers(
        crate::blocks::columns2(field.blocks@, pool),
        block,
        i,
        j,
    );
    crate::blocks::spans_cover_their_numbers(crate::blocks::rows2(field.blocks@, pool), block, i, j);
}

/// The mass has four blocks at least and a score above zero that no other cluster
/// of four blocks beats; there is only one.
pub proof fn the_mass_is_the_best_cluster(field: MassField, scores: Seq<Rank>, c: int, d: int)
    requires
        field.is_mass(scores, c),
        0 <= d < scores.len(),
    ensures
        field.clusters()[c].len() >= 4,
        scores[c] > 0,
        field.clusters()[d].len() >= 4 ==> scores[d] <= scores[c],
        field.clusters()[d].len() >= 4 && d < c ==> scores[d] < scores[c],
        field.is_mass(scores, d) ==> d == c,
{
    assert(field.clusters()[d].len() >= 4 ==> scores[d] <= scores[c]);
    assert(field.clusters()[c].len() >= 4);
}

} // verus!
