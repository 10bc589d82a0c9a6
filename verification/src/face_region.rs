//! The face region around a point: clusters of face-like blocks, the anchor
//! among them, the blocks of its face, and where its eyes are looked for.

use crate::blocks::{
    block_has_pair_member, cluster_blocks, columns_of, pupil_like, rows_of, span_box, span_of,
    BlockMeta, Bounds,
};
use crate::distance::is_within;
use crate::eyes::EyePair;
use crate::grid::Frame;
use crate::marks::{
    AT_008, AT_010, AT_012, AT_014, AT_015, AT_020, AT_040, AT_045, AT_060, AT_062,
};
use crate::rank::{larger, Rank};
use crate::ranking::last_max;
use crate::selection::{all_of, highest, sift};
use vstd::prelude::*;

verus! {

/// The number of blocks with eye texture from which they alone set the anchor.
pub const MIN_EYE_ANCHORS: usize = 3;

/// The number of blocks from which the eye target rests on them alone.
pub const MIN_EYE_TARGETS: usize = 2;

/// The blocks of a frame and how face-like each is, seen from a point.
pub struct FaceField {
    pub frame: Frame,
    pub blocks: Vec<BlockMeta>,
    pub pairs: Vec<EyePair>,
    /// The face signal of each block.
    pub signal: Vec<Rank>,
    /// How well each block would serve as the anchor.
    pub anchor_score: Vec<Rank>,
    /// The face signal that others need to join each block as the anchor.
    pub cutoff: Vec<Rank>,
    /// The share of each block's eye band that others need with it as the
    /// anchor: 0.45 of it.
    pub eye_share: Vec<Rank>,
}

/// What the shape of a cluster tells.
pub struct ClusterProfile {
    /// Twice the width that the centres span, of one block at least.
    pub span_x2: u64,
    /// Twice the height that the centres span, of one block at least.
    pub span_y2: u64,
    /// The blocks with a strong eye band.
    pub strong_eyes: usize,
    /// The blocks that show a pupil and hold a member of an eye pair.
    pub paired_pupils: usize,
    /// The other blocks that show a pupil.
    pub lone_pupils: usize,
}

/// The blocks of a face, by number, and its anchor.
pub struct Face {
    pub anchor: Option<usize>,
    pub blocks: Vec<usize>,
}

/// A rectangle in half pixels.
#[derive(Clone, Copy, PartialEq, Eq, Structural)]
pub struct FaceRect {
    pub x2: u64,
    pub y2: u64,
    pub w2: u64,
    pub h2: u64,
}

/// What the rules read of a face.
pub struct FaceRegion {
    pub face_blocks: Vec<BlockMeta>,
    pub anchor: Option<BlockMeta>,
    /// The blocks that show a pupil and hold a member of an eye pair.
    pub paired_pupil_count: usize,
}

/// What blocks are picked by.
#[derive(Clone, Copy)]
enum Flag {
    FaceLike,
    StrongEyed,
    Pupilled,
    Paired,
    Eyed,
    Joining { anchor: usize },
    Targeted { anchor: Option<usize>, floor: Rank, ceiling2: u64 },
}

/// The number of blocks that show a pupil.
pub open spec fn pupils(blocks: Seq<BlockMeta>) -> nat
    decreases blocks.len(),
{
    if blocks.len() == 0 {
        0
    } else {
        pupils(blocks.drop_last()) + if crate::blocks::shows_pupil(blocks.last()) {
            1nat
        } else {
            0nat
        }
    }
}

impl FaceField {
    /// The number of blocks.
    pub open spec fn n(&self) -> nat {
        self.blocks@.len()
    }

    /// There is a measurement of each kind for each block, and the blocks lie
    /// in the frame.
    pub open spec fn well_formed(&self) -> bool {
        &&& self.signal@.len() == self.n()
        &&& self.anchor_score@.len() == self.n()
        &&& self.cutoff@.len() == self.n()
        &&& self.eye_share@.len() == self.n()
        &&& crate::blocks::all_framed(self.blocks@, self.frame)
    }

    /// The blocks with enough face signal and skin.
    pub open spec fn face_like(&self) -> Seq<bool> {
        Seq::new(
            self.n(),
            |i: int| self.signal@[i] >= AT_008 && self.blocks@[i].skin_density >= AT_008,
        )
    }

    /// The blocks with a strong eye band.
    pub open spec fn strong_eyed(&self) -> Seq<bool> {
        Seq::new(self.n(), |i: int| self.blocks@[i].eye_band >= AT_014)
    }

    /// The blocks that show a pupil.
    pub open spec fn pupilled(&self) -> Seq<bool> {
        Seq::new(self.n(), |i: int| crate::blocks::shows_pupil(self.blocks@[i]))
    }

    /// The blocks that show a pupil and hold a member of an eye pair.
    pub open spec fn paired(&self) -> Seq<bool> {
        Seq::new(
            self.n(),
            |i: int|
                crate::blocks::shows_pupil(self.blocks@[i]) && crate::blocks::holds_any_member(
                    self.blocks@[i],
                    self.pairs@,
                ),
        )
    }

    /// The blocks with an eye band or a pupil.
    pub open spec fn eyed(&self) -> Seq<bool> {
        Seq::new(
            self.n(),
            |i: int| self.blocks@[i].eye_band >= AT_010 || crate::blocks::shows_pupil(self.blocks@[i]),
        )
    }

    /// The blocks that can belong to the face of an anchor: their signal is not
    /// under its cutoff, and they are within six blocks of it.
    pub open spec fn joining(&self, anchor: int) -> Seq<bool> {
        Seq::new(
            self.n(),
            |i: int|
                self.signal@[i] >= self.cutoff@[anchor] && crate::distance::within(
                    self.blocks@[i].rect,
                    self.blocks@[anchor].rect,
                    6,
                    1,
                    self.frame.block as int,
                ),
        )
    }

    /// The eye band that a target needs: the anchor's share, or 0.12.
    pub open spec fn eye_floor(&self, anchor: Option<usize>) -> int {
        match anchor {
            Some(a) => crate::rank::max_rank(self.eye_share@[a as int] as int, AT_012 as int),
            None => AT_012 as int,
        }
    }

    /// The blocks that the eye target can rest on: not centred below the
    /// ceiling and with enough eye band, or with a pupil.
    pub open spec fn targeted(&self, anchor: Option<usize>, ceiling2: int) -> Seq<bool> {
        Seq::new(
            self.n(),
            |i: int|
                {
                    let b = self.blocks@[i];
                    let pupil = crate::blocks::shows_pupil(b);
                    (b.rect.cy2() <= ceiling2 || pupil) && (b.eye_band >= self.eye_floor(anchor)
                        || pupil)
                },
        )
    }

    /// The face-like blocks.
    pub open spec fn candidates(&self) -> Seq<usize> {
        crate::selection::sifted(crate::selection::every(self.n()), self.face_like())
    }

    /// The clusters of candidates: those within 1.75 blocks of each other hang
    /// together.
    pub open spec fn clusters(&self) -> Seq<Seq<usize>> {
        crate::blocks::clusters_of(
            self.blocks@,
            self.candidates(),
            7,
            4,
            self.frame.block as int,
        )
    }

    /// Whether a profile is that of some blocks.
    pub open spec fn profiles(&self, pool: Seq<usize>, p: ClusterProfile) -> bool {
        &&& p.span_x2 == crate::blocks::span2(crate::blocks::columns2(self.blocks@, pool), self.frame.block as int)
        &&& p.span_y2 == crate::blocks::span2(crate::blocks::rows2(self.blocks@, pool), self.frame.block as int)
        &&& p.strong_eyes == crate::selection::sifted(pool, self.strong_eyed()).len()
        &&& p.paired_pupils == crate::selection::sifted(pool, self.paired()).len()
        &&& p.paired_pupils + p.lone_pupils == crate::selection::sifted(pool, self.pupilled()).len()
    }

    /// Whether a cluster cannot be a face: a bar low in the frame, or one of
    /// little skin at any height.
    pub open spec fn is_barred(&self, c: int, height: Rank, avg_skin: Rank) -> bool {
        let pool = self.clusters()[c];
        let block = self.frame.block as int;
        &&& 2 * crate::blocks::span2(crate::blocks::columns2(self.blocks@, pool), block) >= 7
            * crate::blocks::span2(crate::blocks::rows2(self.blocks@, pool), block)
        &&& height >= AT_062 || avg_skin <= AT_040
    }

    /// The scores of the clusters once those that cannot be a face have none.
    pub open spec fn vetoed(
        &self,
        scores: Seq<Rank>,
        heights: Seq<Rank>,
        skins: Seq<Rank>,
    ) -> Seq<Rank> {
        Seq::new(
            scores.len(),
            |c: int|
                if self.is_barred(c, heights[c], skins[c]) {
                    0
                } else {
                    scores[c]
                },
        )
    }

    /// The anchor scores of some blocks.
    pub open spec fn anchor_scores(&self, pool: Seq<usize>) -> Seq<Rank> {
        Seq::new(pool.len(), |k: int| self.anchor_score@[pool[k] as int])
    }

    /// Whether a face is the one that some blocks make: the anchor is the last
    /// of those with the best anchor score, and its face the blocks that can
    /// belong to it.
    pub open spec fn is_face_of(&self, pool: Seq<usize>, face: Face) -> bool {
        match face.anchor {
            None => pool.len() == 0 && face.blocks@.len() == 0,
            Some(a) => {
                &&& exists|k: int| #[trigger]
                    crate::ranking::is_last_max(self.anchor_scores(pool), k) && a == pool[k]
                &&& face.blocks@ == crate::selection::sifted(pool, self.joining(a as int))
            },
        }
    }

    /// The pool that the anchor is sought in: the last of the clusters with the
    /// best score, nothing where there is no cluster.
    pub open spec fn is_chosen_pool(&self, scores: Seq<Rank>, pool: Seq<usize>) -> bool {
        if scores.len() == 0 {
            pool.len() == 0
        } else {
            exists|c: int| #[trigger]
                crate::ranking::is_last_max(scores, c) && pool == self.clusters()[c]
        }
    }

    /// Whether a face holds blocks of this field.
    pub open spec fn holds(&self, face: Face) -> bool {
        &&& crate::selection::all_below(face.blocks@, self.n() as int)
        &&& face.anchor matches Some(a) ==> a < self.n()
    }

    /// The blocks that set the anchor point: those with eyes where there are
    /// enough, else the whole face.
    pub open spec fn anchor_pool(&self, face: Face) -> Seq<usize> {
        let eyed = crate::selection::sifted(face.blocks@, self.eyed());
        if eyed.len() >= MIN_EYE_ANCHORS {
            eyed
        } else {
            face.blocks@
        }
    }

    /// The blocks that the eye target rests on: the targeted ones where there
    /// are enough, else all that set the anchor point.
    pub open spec fn eye_pool(&self, face: Face, ceiling2: int) -> Seq<usize> {
        let pool = self.anchor_pool(face);
        let aimed = crate::selection::sifted(pool, self.targeted(face.anchor, ceiling2));
        if aimed.len() >= MIN_EYE_TARGETS {
            aimed
        } else {
            pool
        }
    }

    /// The bounds with half a block of padding on each side, cut at the left
    /// and upper edge of the frame and not reaching past the other two.
    pub open spec fn padded(&self, b: Bounds) -> FaceRect {
        let x2 = crate::blocks::most(2 * b.left - self.frame.block, 0);
        let y2 = crate::blocks::most(2 * b.top - self.frame.block, 0);
        FaceRect {
            x2: x2 as u64,
            y2: y2 as u64,
            w2: crate::grid::least(
                2 * (b.right - b.left) + 2 * self.frame.block,
                2 * self.frame.w - x2,
            ) as u64,
            h2: crate::grid::least(
                2 * (b.bottom - b.top) + 2 * self.frame.block,
                2 * self.frame.h - y2,
            ) as u64,
        }
    }

    spec fn flagged(&self, flag: Flag, i: int) -> bool {
        match flag {
            Flag::FaceLike => self.face_like()[i],
            Flag::StrongEyed => self.strong_eyed()[i],
            Flag::Pupilled => self.pupilled()[i],
            Flag::Paired => self.paired()[i],
            Flag::Eyed => self.eyed()[i],
            Flag::Joining { anchor } => self.joining(anchor as int)[i],
            Flag::Targeted { anchor, ceiling2, .. } => self.targeted(anchor, ceiling2 as int)[i],
        }
    }

    spec fn admits(&self, flag: Flag) -> bool {
        match flag {
            Flag::Joining { anchor } => anchor < self.n(),
            Flag::Targeted { anchor, floor, .. } => floor == self.eye_floor(anchor) && (anchor matches Some(
                a,
            ) ==> a < self.n()),
            _ => true,
        }
    }

    fn is_flagged(&self, flag: Flag, i: usize) -> (r: bool)
        requires
            self.well_formed(),
            self.admits(flag),
            i < self.n(),
        ensures
            r == self.flagged(flag, i as int),
    {
        let b: &BlockMeta = &self.blocks[i];
        match flag {
            Flag::FaceLike => self.signal[i] >= AT_008 && b.skin_density >= AT_008,
            Flag::StrongEyed => b.eye_band >= AT_014,
            Flag::Pupilled => pupil_like(b),
            Flag::Paired => pupil_like(b) && block_has_pair_member(b, &self.pairs),
            Flag::Eyed => b.eye_band >= AT_010 || pupil_like(b),
            Flag::Joining { anchor } => self.signal[i] >= self.cutoff[anchor] && is_within(
                &b.rect,
                &self.blocks[anchor].rect,
                6,
                1,
                self.frame.block as u64,
            ),
            Flag::Targeted { floor, ceiling2, .. } => (b.rect.centre_y2() <= ceiling2 || pupil_like(
                b,
            )) && (b.eye_band >= floor || pupil_like(b)),
        }
    }

    fn flags(&self, flag: Flag) -> (r: Vec<bool>)
        requires
            self.well_formed(),
            self.admits(flag),
        ensures
            r@.len() == self.n(),
            forall|i: int| 0 <= i < self.n() ==> #[trigger] r@[i] == self.flagged(flag, i),
    {
        let mut r: Vec<bool> = Vec::new();
        let mut i: usize = 0;
        while i < self.blocks.len()
            invariant
                self.well_formed(),
                self.admits(flag),
                0 <= i <= self.n(),
                r@.len() == i,
                forall|k: int| 0 <= k < i ==> #[trigger] r@[k] == self.flagged(flag, k),
            decreases self.n() - i,
        {
            r.push(self.is_flagged(flag, i));
            i = i + 1;
        }
        r
    }

    /// The face-like blocks, in order.
    pub fn face_candidates(&self) -> (r: Vec<usize>)
        requires
            self.well_formed(),
        ensures
            r@ == self.candidates(),
            crate::selection::all_below(r@, self.n() as int),
    {
        let all = all_of(self.blocks.len());
        let keep = self.flags(Flag::FaceLike);
        assert(keep@ == self.face_like());
        sift(&all, &keep)
    }

    /// The clusters of face-like blocks.
    pub fn face_clusters(&self) -> (r: Vec<Vec<usize>>)
        requires
            self.well_formed(),
        ensures
            r@.len() == self.clusters().len(),
            forall|c: int|
                0 <= c < r@.len() ==> (#[trigger] r@[c])@ == self.clusters()[c]
                    && crate::selection::all_below(r@[c]@, self.n() as int) && r@[c]@.len() > 0,
    {
        let candidates = self.face_candidates();
        cluster_blocks(&self.blocks, &candidates, 7, 4, self.frame.block)
    }

    /// The shape of a cluster.
    pub fn cluster_profile(&self, cluster: &Vec<usize>) -> (r: ClusterProfile)
        requires
            self.well_formed(),
            cluster@.len() > 0,
            crate::selection::all_below(cluster@, self.n() as int),
        ensures
            self.profiles(cluster@, r),
    {
        let show_pupils = self.flags(Flag::Pupilled);
        let in_pairs = self.flags(Flag::Paired);
        let strong = self.flags(Flag::StrongEyed);
        assert(show_pupils@ == self.pupilled());
        assert(in_pairs@ == self.paired());
        assert(strong@ == self.strong_eyed());
        let pupilled = sift(cluster, &show_pupils);
        let paired = sift(cluster, &in_pairs);
        proof {
            crate::selection::fewer_flags_keep_fewer(cluster@, self.paired(), self.pupilled());
        }
        ClusterProfile {
            span_x2: span_of(&columns_of(&self.blocks, cluster), self.frame.block),
            span_y2: span_of(&rows_of(&self.blocks, cluster), self.frame.block),
            strong_eyes: sift(cluster, &strong).len(),
            paired_pupils: paired.len(),
            lone_pupils: pupilled.len() - paired.len(),
        }
    }

    /// Takes their score from the clusters that cannot be a face. The height and
    /// the skin of a cluster are averages over its blocks.
    pub fn veto_bars(
        &self,
        clusters: &Vec<Vec<usize>>,
        scores: &Vec<Rank>,
        heights: &Vec<Rank>,
        skins: &Vec<Rank>,
    ) -> (r: Vec<Rank>)
        requires
            self.well_formed(),
            clusters@.len() == self.clusters().len(),
            forall|c: int|
                0 <= c < clusters@.len() ==> (#[trigger] clusters@[c])@ == self.clusters()[c]
                    && crate::selection::all_below(clusters@[c]@, self.n() as int)
                    && clusters@[c]@.len() > 0,
            scores@.len() == clusters@.len(),
            heights@.len() == clusters@.len(),
            skins@.len() == clusters@.len(),
        ensures
            r@ == self.vetoed(scores@, heights@, skins@),
    {
        let mut r: Vec<Rank> = Vec::new();
        let mut c: usize = 0;
        while c < scores.len()
            invariant
                self.well_formed(),
                clusters@.len() == self.clusters().len(),
                forall|c: int|
                    0 <= c < clusters@.len() ==> (#[trigger] clusters@[c])@ == self.clusters()[c]
                        && crate::selection::all_below(clusters@[c]@, self.n() as int)
                        && clusters@[c]@.len() > 0,
                scores@.len() == clusters@.len(),
                heights@.len() == clusters@.len(),
                skins@.len() == clusters@.len(),
                0 <= c <= scores@.len(),
                r@ == self.vetoed(scores@, heights@, skins@).take(c as int),
            decreases scores@.len() - c,
        {
            let profile = self.cluster_profile(&clusters[c]);
            let barred: bool = profile.is_bar(heights[c], skins[c]);
            assert(clusters@[c as int]@ == self.clusters()[c as int]);
            assert(barred == self.is_barred(c as int, heights@[c as int], skins@[c as int]));
            let score: Rank = if barred {
                0
            } else {
                scores[c]
            };
            r.push(score);
            assert(score == self.vetoed(scores@, heights@, skins@)[c as int]);
            c = c + 1;
            assert(r@ == self.vetoed(scores@, heights@, skins@).take(c as int));
        }
        assert(r@ == self.vetoed(scores@, heights@, skins@));
        r
    }

    /// The anchor of some blocks and the face around it.
    pub fn face_of(&self, pool: &Vec<usize>) -> (r: Face)
        requires
            self.well_formed(),
            crate::selection::all_below(pool@, self.n() as int),
        ensures
            self.is_face_of(pool@, r),
            self.holds(r),
    {
        let mut scores: Vec<Rank> = Vec::new();
        let mut k: usize = 0;
        while k < pool.len()
            invariant
                self.well_formed(),
                crate::selection::all_below(pool@, self.n() as int),
                0 <= k <= pool@.len(),
                scores@ == self.anchor_scores(pool@.take(k as int)),
            decreases pool@.len() - k,
        {
            scores.push(self.anchor_score[pool[k]]);
            k = k + 1;
        }
        assert(pool@.take(k as int) == pool@);
        match last_max(scores.as_slice()) {
            None => Face { anchor: None, blocks: Vec::new() },
            Some(best) => {
                let anchor: usize = pool[best];
                assert(crate::ranking::is_last_max(self.anchor_scores(pool@), best as int));
                let keep = self.flags(Flag::Joining { anchor });
                assert(keep@ == self.joining(anchor as int));
                let blocks = sift(pool, &keep);
                Face { anchor: Some(anchor), blocks }
            },
        }
    }

    /// The face that the clusters' scores single out.
    pub fn infer_face(&self, clusters: &Vec<Vec<usize>>, scores: &Vec<Rank>) -> (r: Face)
        requires
            self.well_formed(),
            clusters@.len() == self.clusters().len(),
            forall|c: int|
                0 <= c < clusters@.len() ==> (#[trigger] clusters@[c])@ == self.clusters()[c]
                    && crate::selection::all_below(clusters@[c]@, self.n() as int),
            scores@.len() == clusters@.len(),
        ensures
            exists|pool: Seq<usize>| #[trigger]
                self.is_chosen_pool(scores@, pool) && self.is_face_of(pool, r),
            self.holds(r),
    {
        match last_max(scores.as_slice()) {
            None => {
                let r = Face { anchor: None, blocks: Vec::new() };
                proof {
                    let pool = Seq::<usize>::empty();
                    assert(self.is_chosen_pool(scores@, pool));
                    assert(self.is_face_of(pool, r));
                }
                r
            },
            Some(best) => {
                assert(self.is_chosen_pool(scores@, clusters@[best as int]@));
                self.face_of(&clusters[best])
            },
        }
    }

    /// The blocks that set the anchor point.
    pub fn anchor_blocks(&self, face: &Face) -> (r: Vec<usize>)
        requires
            self.well_formed(),
            self.holds(*face),
        ensures
            r@ == self.anchor_pool(*face),
            crate::selection::all_below(r@, self.n() as int),
    {
        let keep = self.flags(Flag::Eyed);
        assert(keep@ == self.eyed());
        let eyed = sift(&face.blocks, &keep);
        if eyed.len() >= MIN_EYE_ANCHORS {
            eyed
        } else {
            copied(&face.blocks)
        }
    }

    /// The blocks that the eye target rests on; `ceiling2` is twice the row
    /// below which eyes are not expected.
    pub fn eye_blocks(&self, face: &Face, ceiling2: u64) -> (r: Vec<usize>)
        requires
            self.well_formed(),
            self.holds(*face),
        ensures
            r@ == self.eye_pool(*face, ceiling2 as int),
            crate::selection::all_below(r@, self.n() as int),
    {
        let pool = self.anchor_blocks(face);
        let floor: Rank = match face.anchor {
            Some(a) => larger(self.eye_share[a], AT_012),
            None => AT_012,
        };
        let keep = self.flags(Flag::Targeted { anchor: face.anchor, floor, ceiling2 });
        assert(keep@ == self.targeted(face.anchor, ceiling2 as int));
        let aimed = sift(&pool, &keep);
        if aimed.len() >= MIN_EYE_TARGETS {
            aimed
        } else {
            pool
        }
    }

    /// What the blocks of a face span, if there are any.
    pub fn face_bounds(&self, face: &Face) -> (r: Option<Bounds>)
        requires
            self.well_formed(),
            self.holds(*face),
        ensures
            r is None <==> face.blocks@.len() == 0,
            r matches Some(b) ==> b == crate::blocks::bounds_of(self.blocks@, face.blocks@)
                && crate::blocks::framed(b, self.frame),
    {
        if face.blocks.len() == 0 {
            return None;
        }
        proof {
            crate::blocks::bounds_hold_the_blocks(self.blocks@, face.blocks@, self.frame);
        }
        Some(span_box(&self.blocks, &face.blocks))
    }

    /// The rectangle of a face: its bounds with half a block of padding.
    pub fn face_rect(&self, b: &Bounds) -> (r: FaceRect)
        requires
            crate::blocks::framed(*b, self.frame),
        ensures
            r == self.padded(*b),
    {
        let block: u64 = self.frame.block as u64;
        let x2: u64 = if 2 * b.left >= block {
            2 * b.left - block
        } else {
            0
        };
        let y2: u64 = if 2 * b.top >= block {
            2 * b.top - block
        } else {
            0
        };
        let w2: u64 = 2 * (b.right - b.left) + 2 * block;
        let h2: u64 = 2 * (b.bottom - b.top) + 2 * block;
        let room_x: u64 = 2 * (self.frame.w as u64) - x2;
        let room_y: u64 = 2 * (self.frame.h as u64) - y2;
        FaceRect {
            x2,
            y2,
            w2: if w2 <= room_x {
                w2
            } else {
                room_x
            },
            h2: if h2 <= room_y {
                h2
            } else {
                room_y
            },
        }
    }

    proof fn lemma_pupils(&self, pool: Seq<usize>)
        requires
            crate::selection::all_below(pool, self.n() as int),
        ensures
            pupils(Seq::new(pool.len(), |k: int| self.blocks@[pool[k] as int]))
                == crate::selection::sifted(pool, self.pupilled()).len(),
        decreases pool.len(),
    {
        let list = Seq::new(pool.len(), |k: int| self.blocks@[pool[k] as int]);
        if pool.len() > 0 {
            let rest = pool.drop_last();
            assert(pool[pool.len() - 1] < self.n());
            assert forall|k: int| 0 <= k < rest.len() implies #[trigger] rest[k] < self.n() by {
                assert(rest[k] == pool[k]);
            }
            self.lemma_pupils(rest);
            assert(list.drop_last() == Seq::new(
                rest.len(),
                |k: int| self.blocks@[rest[k] as int],
            ));
        }
    }

    /// What the rules read of a face.
    pub fn region_of(&self, face: &Face) -> (r: FaceRegion)
        requires
            self.well_formed(),
            self.holds(*face),
        ensures
            r.face_blocks@ == Seq::new(
                face.blocks@.len(),
                |k: int| self.blocks@[face.blocks@[k] as int],
            ),
            r.anchor == (match face.anchor {
                Some(a) => Some(self.blocks@[a as int]),
                None => None,
            }),
            r.paired_pupil_count == crate::selection::sifted(face.blocks@, self.paired()).len(),
            r.well_formed(),
    {
        let pool = &face.blocks;
        let mut face_blocks: Vec<BlockMeta> = Vec::new();
        let mut k: usize = 0;
        while k < pool.len()
            invariant
                crate::selection::all_below(pool@, self.n() as int),
                0 <= k <= pool@.len(),
                face_blocks@.len() == k,
                forall|j: int|
                    0 <= j < k ==> #[trigger] face_blocks@[j] == self.blocks@[pool@[j] as int],
            decreases pool@.len() - k,
        {
            face_blocks.push(self.blocks[pool[k]]);
            k = k + 1;
        }
        let anchor: Option<BlockMeta> = match face.anchor {
            Some(a) => Some(self.blocks[a]),
            None => None,
        };
        let in_pairs = self.flags(Flag::Paired);
        assert(in_pairs@ == self.paired());
        let paired = sift(&face.blocks, &in_pairs);
        proof {
            crate::selection::fewer_flags_keep_fewer(pool@, self.paired(), self.pupilled());
            self.lemma_pupils(pool@);
            assert(face_blocks@ == Seq::new(pool@.len(), |k: int| self.blocks@[pool@[k] as int]));
        }
        FaceRegion { face_blocks, anchor, paired_pupil_count: paired.len() }
    }
}

fn copied(v: &Vec<usize>) -> (r: Vec<usize>)
    ensures
        r@ == v@,
{
    let mut r: Vec<usize> = Vec::new();
    let mut k: usize = 0;
    while k < v.len()
        invariant
            0 <= k <= v@.len(),
            r@ == v@.take(k as int),
        decreases v@.len() - k,
    {
        r.push(v[k]);
        k = k + 1;
    }
    r
}

impl ClusterProfile {
    /// Whether the cluster is a long level bar: at least 3.5 times as wide as
    /// high.
    pub open spec fn bar_shaped(&self) -> bool {
        2 * self.span_x2 >= 7 * self.span_y2
    }

    /// Whether the cluster cannot be a face: a bar low in the frame, or one of
    /// little skin at any height.
    pub fn is_bar(&self, height: Rank, avg_skin: Rank) -> (r: bool)
        ensures
            r == (self.bar_shaped() && (height >= AT_062 || avg_skin <= AT_040)),
            r == (2 * self.span_x2 >= 7 * self.span_y2 && (height >= AT_062 || avg_skin <= AT_040)),
    {
        2 * (self.span_x2 as u128) >= 7 * (self.span_y2 as u128) && (height >= AT_062 || avg_skin
            <= AT_040)
    }

    /// What each lone pupil adds to the cluster's score: little where there is
    /// one, more where there are several.
    pub fn lone_bonus(&self) -> (r: Rank)
        ensures
            r == if self.lone_pupils >= 2 {
                AT_045
            } else {
                AT_015
            },
    {
        if self.lone_pupils >= 2 {
            AT_045
        } else {
            AT_015
        }
    }
}

impl FaceRegion {
    /// No more blocks are counted as paired pupils than show a pupil.
    pub open spec fn well_formed(&self) -> bool {
        self.paired_pupil_count <= pupils(self.face_blocks@)
    }

    /// The number of face blocks that show a pupil.
    pub fn pupil_count(&self) -> (r: usize)
        ensures
            r == pupils(self.face_blocks@),
            r <= self.face_blocks@.len(),
    {
        let mut n: usize = 0;
        let mut k: usize = 0;
        while k < self.face_blocks.len()
            invariant
                0 <= k <= self.face_blocks@.len(),
                n == pupils(self.face_blocks@.take(k as int)),
                n <= k,
            decreases self.face_blocks@.len() - k,
        {
            assert(self.face_blocks@.take(k + 1).drop_last() == self.face_blocks@.take(k as int));
            if pupil_like(&self.face_blocks[k]) {
                n = n + 1;
            }
            k = k + 1;
        }
        assert(self.face_blocks@.take(k as int) == self.face_blocks@);
        n
    }

    /// The eye band of the anchor, or zero without one.
    pub open spec fn anchored_eye(&self) -> int {
        match self.anchor {
            Some(a) => a.eye_band as int,
            None => 0,
        }
    }

    /// The eye band of the anchor, or zero without one.
    pub fn anchor_eye(&self) -> (r: Rank)
        ensures
            r == self.anchored_eye(),
            self.anchor matches Some(a) ==> r == a.eye_band,
            self.anchor is None ==> r == 0,
    {
        match &self.anchor {
            Some(a) => a.eye_band,
            None => 0,
        }
    }

    /// Whether any face block has an eye band or shows a pupil.
    pub open spec fn eyes_seen(&self) -> bool {
        exists|k: int|
            0 <= k < self.face_blocks@.len() && ((#[trigger] self.face_blocks@[k]).eye_band
                >= AT_010 || crate::blocks::shows_pupil(self.face_blocks@[k]))
    }

    /// The lowest edges of the face blocks that show a pupil, in rows.
    pub open spec fn pupil_bottoms(&self) -> Seq<u64> {
        Seq::new(
            self.face_blocks@.len(),
            |k: int|
                {
                    let b = self.face_blocks@[k];
                    if crate::blocks::shows_pupil(b) {
                        (b.rect.y + b.rect.h) as u64
                    } else {
                        0
                    }
                },
        )
    }

    /// The row under the lowest face block that shows a pupil, zero without
    /// one.
    pub fn pupil_bottom(&self) -> (r: u64)
        ensures
            self.face_blocks@.len() == 0 ==> r == 0,
            self.face_blocks@.len() > 0 ==> r == crate::selection::max_of(self.pupil_bottoms()),
            forall|k: int|
                0 <= k < self.face_blocks@.len() && crate::blocks::shows_pupil(
                    #[trigger] self.face_blocks@[k],
                ) ==> self.face_blocks@[k].rect.y + self.face_blocks@[k].rect.h <= r,
            r > 0 ==> exists|k: int|
                0 <= k < self.face_blocks@.len() && crate::blocks::shows_pupil(
                    #[trigger] self.face_blocks@[k],
                ) && self.face_blocks@[k].rect.y + self.face_blocks@[k].rect.h == r,
    {
        let mut list: Vec<u64> = Vec::new();
        let mut k: usize = 0;
        while k < self.face_blocks.len()
            invariant
                0 <= k <= self.face_blocks@.len(),
                list@ == self.pupil_bottoms().take(k as int),
            decreases self.face_blocks@.len() - k,
        {
            let b = &self.face_blocks[k];
            let bottom: u64 = if pupil_like(b) {
                b.rect.y as u64 + b.rect.h as u64
            } else {
                0
            };
            list.push(bottom);
            assert(bottom == self.pupil_bottoms()[k as int]);
            k = k + 1;
            assert(list@ == self.pupil_bottoms().take(k as int));
        }
        if list.len() == 0 {
            0
        } else {
            assert(list@ == self.pupil_bottoms());
            let r: u64 = highest(&list);
            proof {
                let v = self.pupil_bottoms();
                crate::selection::extremes_bound_the_list(v);
                assert forall|k: int|
                    0 <= k < self.face_blocks@.len() && crate::blocks::shows_pupil(
                        #[trigger] self.face_blocks@[k],
                    ) implies self.face_blocks@[k].rect.y + self.face_blocks@[k].rect.h <= r by {
                    assert(v[k] <= r);
                }
                let k = choose|k: int| 0 <= k < v.len() && v[k] == crate::selection::max_of(v);
                assert(v[k] == r);
                assert(crate::blocks::shows_pupil(self.face_blocks@[k]) || r == 0);
            }
            r
        }
    }

    /// Whether any face block has an eye band or shows a pupil.
    pub fn has_eye(&self) -> (r: bool)
        ensures
            r == self.eyes_seen(),
            r ==> exists|k: int|
                0 <= k < self.face_blocks@.len() && ((#[trigger] self.face_blocks@[k]).eye_band
                    >= AT_010 || crate::blocks::shows_pupil(self.face_blocks@[k])),
            forall|k: int|
                0 <= k < self.face_blocks@.len() && ((#[trigger] self.face_blocks@[k]).eye_band
                    >= AT_010 || crate::blocks::shows_pupil(self.face_blocks@[k])) ==> r,
    {
        let mut k: usize = 0;
        while k < self.face_blocks.len()
            invariant
                0 <= k <= self.face_blocks@.len(),
                forall|j: int|
                    0 <= j < k ==> (#[trigger] self.face_blocks@[j]).eye_band < AT_010
                        && !crate::blocks::shows_pupil(self.face_blocks@[j]),
            decreases self.face_blocks@.len() - k,
        {
            let b = &self.face_blocks[k];
            if b.eye_band >= AT_010 || pupil_like(b) {
                assert(self.face_blocks@[k as int].eye_band >= AT_010
                    || crate::blocks::shows_pupil(self.face_blocks@[k as int]));
                return true;
            }
            k = k + 1;
        }
        false
    }
}

/// An anchor whose own signal is not under its cutoff belongs to its face.
pub proof fn the_anchor_belongs_to_its_face(field: FaceField, pool: Seq<usize>, face: Face, a: usize)
    requires
        field.is_face_of(pool, face),
        face.anchor == Some(a),
        a < field.n(),
        field.cutoff@[a as int] <= field.signal@[a as int],
    ensures
        face.blocks@.contains(a),
{
    let k = choose|k: int| #[trigger]
        crate::ranking::is_last_max(field.anchor_scores(pool), k) && a == pool[k];
    assert(pool[k] == a);
    assert(pool.contains(a));
    let block = field.frame.block as int;
    let rect = field.blocks@[a as int].rect;
    assert(crate::distance::centre_gap2(rect, rect) == 0);
    assert(1 * 1 * 0 <= 4 * (6 * 6) * (block * block)) by (nonlinear_arith);
    assert(crate::distance::within(rect, rect, 6, 1, block));
    assert(field.joining(a as int)[a as int]);
    crate::selection::sifting_keeps_the_flagged(pool, field.joining(a as int), a);
}

/// Every block of the face that the clusters' scores single out is face-like:
/// it has the signal and the skin that a candidate needs.
pub proof fn faces_are_made_of_candidates(
    field: FaceField,
    scores: Seq<Rank>,
    pool: Seq<usize>,
    face: Face,
    x: usize,
)
    requires
        scores.len() == field.clusters().len(),
        field.candidates().len() <= usize::MAX,
        field.is_chosen_pool(scores, pool),
        field.is_face_of(pool, face),
        face.blocks@.contains(x),
    ensures
        x < field.n(),
        field.signal@[x as int] >= AT_008,
        field.blocks@[x as int].skin_density >= AT_008,
{
    let a = face.anchor->0;
    crate::selection::sifting_keeps_the_flagged(pool, field.joining(a as int), x);
    assert(pool.contains(x));
    let c = choose|c: int| #[trigger]
        crate::ranking::is_last_max(scores, c) && pool == field.clusters()[c];
    let all = crate::selection::every(field.n());
    crate::selection::sifting_keeps_the_flagged(all, field.face_like(), x);
    crate::blocks::clusters_hold_only_the_pool(
        field.blocks@,
        field.candidates(),
        7,
        4,
        field.frame.block as int,
        c,
        x,
    );
    let i = choose|i: int| 0 <= i < all.len() && all[i] == x;
    assert(x == i as usize);
}

/// A bar that cannot be a face is never chosen where another cluster scores,
/// however much signal it has.
pub proof fn bars_are_not_chosen(
    field: FaceField,
    scores: Seq<Rank>,
    heights: Seq<Rank>,
    skins: Seq<Rank>,
    pool: Seq<usize>,
    c: int,
)
    requires
        0 <= c < scores.len(),
        !field.is_barred(c, heights[c], skins[c]),
        scores[c] > 0,
        field.is_chosen_pool(field.vetoed(scores, heights, skins), pool),
    ensures
        exists|d: int|
            0 <= d < scores.len() && pool == #[trigger] field.clusters()[d] && !field.is_barred(
                d,
                heights[d],
                skins[d],
            ),
        forall|d: int|
            #[trigger] crate::ranking::is_last_max(field.vetoed(scores, heights, skins), d)
                ==> !field.is_barred(d, heights[d], skins[d]),
{
    let left = field.vetoed(scores, heights, skins);
    assert(left[c] == scores[c]);
    let d = choose|d: int| #[trigger]
        crate::ranking::is_last_max(left, d) && pool == field.clusters()[d];
    assert(left[c] <= left[d]);
}

/// The rectangle of a face lies in the frame and covers each of its blocks.
pub proof fn face_rects_cover_the_face(field: FaceField, pool: Seq<usize>, k: int)
    requires
        field.well_formed(),
        crate::selection::all_below(pool, field.n() as int),
        0 <= k < pool.len(),
    ensures
        ({
            let rect = field.padded(crate::blocks::bounds_of(field.blocks@, pool));
            let block = field.blocks@[pool[k] as int].rect;
            &&& rect.x2 + rect.w2 <= 2 * field.frame.w
            &&& rect.y2 + rect.h2 <= 2 * field.frame.h
            &&& rect.x2 <= 2 * block.x
            &&& rect.y2 <= 2 * block.y
            &&& 2 * (block.x + block.w) <= rect.x2 + rect.w2
            &&& 2 * (block.y + block.h) <= rect.y2 + rect.h2
        }),
{
    crate::blocks::bounds_hold_the_blocks(field.blocks@, pool, field.frame);
    let block = field.blocks@[pool[k] as int].rect;
    let b = crate::blocks::bounds_of(field.blocks@, pool);
    assert(b.left <= block.x && block.x + block.w <= b.right && b.top <= block.y && block.y
        + block.h <= b.bottom);
}

/// Eyes are looked for in the face only.
pub proof fn eyes_are_sought_in_the_face(field: FaceField, face: Face, ceiling2: int, x: usize)
    requires
        field.eye_pool(face, ceiling2).contains(x),
    ensures
        face.blocks@.contains(x),
{
    let pool = field.anchor_pool(face);
    crate::selection::sifting_keeps_the_flagged(pool, field.targeted(face.anchor, ceiling2), x);
    crate::selection::sifting_keeps_the_flagged(face.blocks@, field.eyed(), x);
}

/// Pupils are counted block by block: a block with a radial response of 0.60,
/// skin of 0.20 and face gradients of 0.45 adds one, any other adds none.
pub proof fn pupils_are_counted_one_by_one(blocks: Seq<BlockMeta>, b: BlockMeta)
    ensures
        pupils(Seq::empty()) == 0,
        b.radial >= AT_060 && b.skin_density >= AT_020 && b.face_boost >= AT_045 ==> pupils(
            blocks.push(b),
        ) == pupils(blocks) + 1,
        b.radial < AT_060 || b.skin_density < AT_020 || b.face_boost < AT_045 ==> pupils(
            blocks.push(b),
        ) == pupils(blocks),
        pupils(blocks) <= blocks.len(),
    decreases blocks.len(),
{
    assert(blocks.push(b).drop_last() == blocks);
    if blocks.len() > 0 {
        pupils_are_counted_one_by_one(blocks.drop_last(), blocks.last());
        assert(blocks.drop_last().push(blocks.last()) == blocks);
    }
}

/// A block is a candidate for a face if its signal and its skin reach 0.08.
pub proof fn candidates_have_signal_and_skin(field: FaceField, i: usize)
    requires
        i < field.n(),
    ensures
        field.candidates().contains(i) <==> field.signal@[i as int] >= AT_008
            && field.blocks@[i as int].skin_density >= AT_008,
{
    let all = crate::selection::every(field.n());
    assert(all[i as int] == i);
    crate::selection::sifting_keeps_the_flagged(all, field.face_like(), i);
}

/// The shape of a cluster: blocks with an eye band of 0.14 are strong-eyed, and
/// every block that shows a pupil is either paired, with a member of an eye pair
/// in it, or lone.
pub proof fn profiles_count_eyes_and_pupils(
    field: FaceField,
    pool: Seq<usize>,
    p: ClusterProfile,
    x: usize,
)
    requires
        field.profiles(pool, p),
        x < field.n(),
    ensures
        crate::selection::sifted(pool, field.strong_eyed()).contains(x) <==> pool.contains(x)
            && field.blocks@[x as int].eye_band >= AT_014,
        crate::selection::sifted(pool, field.pupilled()).contains(x) <==> pool.contains(x)
            && crate::blocks::shows_pupil(field.blocks@[x as int]),
        crate::selection::sifted(pool, field.paired()).contains(x) <==> pool.contains(x)
            && crate::blocks::shows_pupil(field.blocks@[x as int])
            && crate::blocks::holds_any_member(field.blocks@[x as int], field.pairs@),
        p.strong_eyes == crate::selection::sifted(pool, field.strong_eyed()).len(),
        p.paired_pupils == crate::selection::sifted(pool, field.paired()).len(),
        p.lone_pupils == crate::selection::sifted(pool, field.pupilled()).len()
            - crate::selection::sifted(pool, field.paired()).len(),
        p.span_x2 >= 2 * field.frame.block,
        p.span_y2 >= 2 * field.frame.block,
        forall|i: int, j: int|
            0 <= i < pool.len() && 0 <= j < pool.len() ==> p.span_x2
                >= #[trigger] crate::blocks::columns2(field.blocks@, pool)[i]
                - #[trigger] crate::blocks::columns2(field.blocks@, pool)[j],
        forall|i: int, j: int|
            0 <= i < pool.len() && 0 <= j < pool.len() ==> p.span_y2
                >= #[trigger] crate::blocks::rows2(field.blocks@, pool)[i]
                - #[trigger] crate::blocks::rows2(field.blocks@, pool)[j],
{
    crate::selection::sifting_keeps_the_flagged(pool, field.strong_eyed(), x);
    crate::selection::sifting_keeps_the_flagged(pool, field.pupilled(), x);
    crate::selection::sifting_keeps_the_flagged(pool, field.paired(), x);
    let block = field.frame.block as int;
    let xs = crate::blocks::columns2(field.blocks@, pool);
    let ys = crate::blocks::rows2(field.blocks@, pool);
    assert forall|i: int, j: int| 0 <= i < pool.len() && 0 <= j < pool.len() implies p.span_x2
        >= #[trigger] xs[i] - #[trigger] xs[j] by {
        crate::blocks::spans_cover_their_numbers(xs, block, i, j);
    }
    assert forall|i: int, j: int| 0 <= i < pool.len() && 0 <= j < pool.len() implies p.span_y2
        >= #[trigger] ys[i] - #[trigger] ys[j] by {
        crate::blocks::spans_cover_their_numbers(ys, block, i, j);
    }
}

/// A cluster loses its score if it is 3.5 times as wide as high and its blocks
/// are at 62% of the height or below on average, or no more than 0.40 skin; every
/// other cluster keeps its score.
pub proof fn only_bars_lose_their_score(
    field: FaceField,
    scores: Seq<Rank>,
    heights: Seq<Rank>,
    skins: Seq<Rank>,
    p: ClusterProfile,
    c: int,
)
    requires
        0 <= c < scores.len(),
        field.profiles(field.clusters()[c], p),
    ensures
        2 * p.span_x2 < 7 * p.span_y2 ==> field.vetoed(scores, heights, skins)[c] == scores[c],
        heights[c] < AT_062 && skins[c] > AT_040 ==> field.vetoed(scores, heights, skins)[c]
            == scores[c],
        2 * p.span_x2 >= 7 * p.span_y2 && heights[c] >= AT_062 ==> field.vetoed(
            scores,
            heights,
            skins,
        )[c] == 0,
        2 * p.span_x2 >= 7 * p.span_y2 && skins[c] <= AT_040 ==> field.vetoed(
            scores,
            heights,
            skins,
        )[c] == 0,
        field.vetoed(scores, heights, skins).len() == scores.len(),
{
}

/// A block belongs to the face of an anchor if it is of the pool, its signal is
/// not under the anchor's cutoff, and its centre is within six blocks of the
/// anchor's; no other block does.
pub proof fn faces_gather_around_their_anchor(
    field: FaceField,
    pool: Seq<usize>,
    face: Face,
    a: usize,
    x: usize,
)
    requires
        field.is_face_of(pool, face),
        face.anchor == Some(a),
        crate::selection::all_below(pool, field.n() as int),
        x < field.n(),
    ensures
        face.blocks@.contains(x) <==> pool.contains(x) && field.signal@[x as int]
            >= field.cutoff@[a as int] && ({
            let r = field.blocks@[x as int].rect;
            let s = field.blocks@[a as int].rect;
            let dx = (2 * r.x + r.w) - (2 * s.x + s.w);
            let dy = (2 * r.y + r.h) - (2 * s.y + s.h);
            dx * dx + dy * dy <= 144 * (field.frame.block * field.frame.block)
        }),
        pool.contains(a),
        forall|k: int|
            0 <= k < pool.len() ==> field.anchor_score@[#[trigger] pool[k] as int]
                <= field.anchor_score@[a as int],
{
    crate::selection::sifting_keeps_the_flagged(pool, field.joining(a as int), x);
    let k = choose|k: int| #[trigger]
        crate::ranking::is_last_max(field.anchor_scores(pool), k) && a == pool[k];
    assert(pool[k] == a);
    crate::distance::distances_are_of_centres(
        field.blocks@[x as int].rect,
        field.blocks@[a as int].rect,
        6,
        1,
        field.frame.block as int,
    );
    assert forall|j: int| 0 <= j < pool.len() implies field.anchor_score@[#[trigger] pool[j] as int]
        <= field.anchor_score@[a as int] by {
        assert(field.anchor_scores(pool)[j] <= field.anchor_scores(pool)[k]);
    }
}

/// The anchor point rests on the blocks of the face with an eye band of 0.10 or a
/// pupil where there are three of them at least, else on the whole face.
pub proof fn three_eyed_blocks_set_the_anchor(field: FaceField, face: Face, x: usize)
    requires
        x < field.n(),
    ensures
        ({
            let eyed = crate::selection::sifted(face.blocks@, field.eyed());
            &&& eyed.contains(x) <==> face.blocks@.contains(x) && (field.blocks@[x as int].eye_band
                >= AT_010 || crate::blocks::shows_pupil(field.blocks@[x as int]))
            &&& eyed.len() >= 3 ==> field.anchor_pool(face) == eyed
            &&& eyed.len() < 3 ==> field.anchor_pool(face) == face.blocks@
        }),
{
    crate::selection::sifting_keeps_the_flagged(face.blocks@, field.eyed(), x);
}

/// Eyes are looked for in the blocks that set the anchor point: in those with a
/// pupil, and those not centred below the ceiling with an eye band of 0.12 and of
/// the anchor's share, where there are two of them at least; else in all.
pub proof fn eyes_are_sought_above_the_ceiling(
    field: FaceField,
    face: Face,
    ceiling2: int,
    x: usize,
)
    requires
        x < field.n(),
    ensures
        ({
            let pool = field.anchor_pool(face);
            let b = field.blocks@[x as int];
            let aimed = crate::selection::sifted(pool, field.targeted(face.anchor, ceiling2));
            &&& crate::blocks::shows_pupil(b) ==> (aimed.contains(x) <==> pool.contains(x))
            &&& 2 * b.rect.y + b.rect.h > ceiling2 && !crate::blocks::shows_pupil(b)
                ==> !aimed.contains(x)
            &&& b.eye_band < AT_012 && !crate::blocks::shows_pupil(b) ==> !aimed.contains(x)
            &&& face.anchor matches Some(a) ==> (b.eye_band < field.eye_share@[a as int]
                && !crate::blocks::shows_pupil(b) ==> !aimed.contains(x))
            &&& pool.contains(x) && 2 * b.rect.y + b.rect.h <= ceiling2 && b.eye_band >= AT_012 && (
            face.anchor matches Some(a) ==> b.eye_band >= field.eye_share@[a as int])
                ==> aimed.contains(x)
            &&& aimed.len() >= 2 ==> field.eye_pool(face, ceiling2) == aimed
            &&& aimed.len() < 2 ==> field.eye_pool(face, ceiling2) == pool
        }),
{
    crate::selection::sifting_keeps_the_flagged(
        field.anchor_pool(face),
        field.targeted(face.anchor, ceiling2),
        x,
    );
}

/// The rectangle of a face is its bounds with half a block around them, as far as
/// the frame goes: it starts half a block before them or at the frame's edge, and
/// is one block wider and higher than they are unless the frame ends.
pub proof fn face_rects_pad_half_a_block(field: FaceField, b: Bounds)
    requires
        crate::blocks::framed(b, field.frame),
    ensures
        ({
            let r = field.padded(b);
            let block = field.frame.block;
            &&& 2 * b.left >= block ==> r.x2 == 2 * b.left - block
            &&& 2 * b.left <= block ==> r.x2 == 0
            &&& 2 * b.top >= block ==> r.y2 == 2 * b.top - block
            &&& 2 * b.top <= block ==> r.y2 == 0
            &&& r.w2 <= 2 * (b.right - b.left) + 2 * block
            &&& r.h2 <= 2 * (b.bottom - b.top) + 2 * block
            &&& r.x2 + 2 * (b.right - b.left) + 2 * block <= 2 * field.frame.w ==> r.w2 == 2 * (
            b.right - b.left) + 2 * block
            &&& r.y2 + 2 * (b.bottom - b.top) + 2 * block <= 2 * field.frame.h ==> r.h2 == 2 * (
            b.bottom - b.top) + 2 * block
            &&& r.x2 + 2 * (b.right - b.left) + 2 * block >= 2 * field.frame.w ==> r.x2 + r.w2 == 2
                * field.frame.w
            &&& r.y2 + 2 * (b.bottom - b.top) + 2 * block >= 2 * field.frame.h ==> r.y2 + r.h2 == 2
                * field.frame.h
        }),
{
}

/// Face-like blocks hang together: one whose centre is within 1.75 blocks of a
/// block of a cluster belongs to that cluster, and clusters hold nothing but
/// candidates.
pub proof fn near_candidates_share_a_cluster(field: FaceField, c: int, x: usize, y: usize)
    requires
        field.candidates().len() <= usize::MAX,
        0 <= c < field.clusters().len(),
        field.clusters()[c].contains(x),
        field.candidates().contains(y),
        ({
            let r = field.blocks@[x as int].rect;
            let s = field.blocks@[y as int].rect;
            let dx = (2 * r.x + r.w) - (2 * s.x + s.w);
            let dy = (2 * r.y + r.h) - (2 * s.y + s.h);
            16 * (dx * dx + dy * dy) <= 196 * (field.frame.block * field.frame.block)
        }),
    ensures
        field.clusters()[c].contains(y),
        field.candidates().contains(x),
{
    let block = field.frame.block as int;
    let pool = field.candidates();
    crate::distance::distances_are_of_centres(
        field.blocks@[x as int].rect,
        field.blocks@[y as int].rect,
        7,
        4,
        block,
    );
    let j = choose|j: int| 0 <= j < pool.len() && pool[j] == y;
    crate::blocks::near_blocks_share_a_cluster(field.blocks@, pool, 7, 4, block, c, x, j);
    crate::blocks::clusters_hold_only_the_pool(field.blocks@, pool, 7, 4, block, c, x);
}

/// Eyes are seen in a face where one of its blocks has an eye band of 0.10 or shows
/// a pupil, and nowhere else.
pub proof fn one_block_shows_the_eyes(region: FaceRegion, k: int)
    requires
        0 <= k < region.face_blocks@.len(),
    ensures
        region.face_blocks@[k].eye_band >= AT_010 ==> region.eyes_seen(),
        crate::blocks::shows_pupil(region.face_blocks@[k]) ==> region.eyes_seen(),
        (forall|j: int|
            0 <= j < region.face_blocks@.len() ==> (#[trigger] region.face_blocks@[j]).eye_band
                < AT_010 && !crate::blocks::shows_pupil(region.face_blocks@[j]))
            ==> !region.eyes_seen(),
        region.anchor matches Some(a) ==> region.anchored_eye() == a.eye_band,
        region.anchor is None ==> region.anchored_eye() == 0,
        region.pupil_bottoms()[k] == if crate::blocks::shows_pupil(region.face_blocks@[k]) {
            region.face_blocks@[k].rect.y + region.face_blocks@[k].rect.h
        } else {
            0
        },
{
}

/// A lone pupil adds 0.15 to the score of its cluster, and each of several 0.45.
pub proof fn lone_pupils_count_for_less(p: ClusterProfile, r: Rank)
    requires
        call_ensures(ClusterProfile::lone_bonus, (&p,), r),
    ensures
        p.lone_pupils <= 1 ==> r == AT_015,
        p.lone_pupils >= 2 ==> r == AT_045,
{
}

/// A cluster is a bar from 3.5 times as wide as high on, low in the frame or with
/// little skin: a narrower one never is, nor is one of more than 0.40 skin above
/// 62% of the height.
pub proof fn bars_are_low_or_pale(p: ClusterProfile, height: Rank, avg_skin: Rank, r: bool)
    requires
        call_ensures(ClusterProfile::is_bar, (&p, height, avg_skin), r),
    ensures
        10 * p.span_x2 < 35 * p.span_y2 ==> !r,
        height < AT_062 && avg_skin > AT_040 ==> !r,
        10 * p.span_x2 >= 35 * p.span_y2 && height >= AT_062 ==> r,
        10 * p.span_x2 >= 35 * p.span_y2 && avg_skin <= AT_040 ==> r,
{
}

} // verus!
