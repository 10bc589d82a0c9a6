//! The second look at a crop: what it is cropped to, how face-like it proves,
//! and whether its point replaces the first one.

use crate::blocks::{columns_of, pupil_like, rows_of, BlockMeta};
use crate::classify::is_mono;
use crate::clusters::Links;
use crate::eyes::EyePair;
use crate::marks::{
    AT_005, AT_008, AT_010, AT_012, AT_015, AT_020, AT_025, AT_030, AT_055, AT_100, AT_350,
};
use crate::rank::Rank;
use crate::ranking::{first_max_above, strongest};
use crate::selection::{all_of, highest, lowest, sift};
use crate::weights::Category;
use vstd::prelude::*;

verus! {

/// The number of pupils that count as evidence at most.
pub const MAX_PUPILS: usize = 4;

/// The shortest edge of a crop that is worth a second look.
pub const MIN_CROP: u32 = 48;

/// The shortest edge of a frame that can be analysed.
pub const MIN_FRAME: u32 = 3;

/// The number of blocks that a skin region has at least.
pub const MIN_REGION: usize = 2;

/// The blocks of a crop or a frame.
pub struct Evidence {
    pub blocks: Vec<BlockMeta>,
}

/// What the blocks of a crop show of a face.
pub struct CropEvidence {
    /// The block with the strongest eye band on skin, if there is any.
    pub peak: Option<usize>,
    /// The number of pupils, four at most.
    pub pupils: usize,
    /// The blocks whose skin sets the centre of the skin.
    pub skin: Vec<usize>,
}

/// What the blocks near a point show of a face.
pub struct PointEvidence {
    /// The strongest eye band on skin, zero without one.
    pub peak_eye: Rank,
    /// The number of pupils, four at most.
    pub pupils: usize,
}

/// An eye pair of a crop.
pub struct PairReport {
    /// Its height, as a share of the crop's.
    pub y: Rank,
    /// How far that is from the strongest eye band.
    pub gap: Rank,
}

/// A skin region in half pixels: the centres of its outermost blocks.
#[derive(Clone, Copy, PartialEq, Eq, Structural)]
pub struct SkinBox {
    pub x0: u64,
    pub y0: u64,
    pub x1: u64,
    pub y1: u64,
}

/// What a skin region must show to be proposed.
#[derive(Clone, Copy, PartialEq, Eq, Structural)]
pub enum SkinGuard {
    /// An eye band.
    Eyes,
    /// A trace of an eye band, or strong skin.
    EyesOrSkin,
}

impl Evidence {
    /// The number of blocks.
    pub open spec fn n(&self) -> nat {
        self.blocks@.len()
    }

    /// The eye bands of the blocks with skin, zero for the others.
    pub open spec fn skin_eyes(&self) -> Seq<Rank> {
        Seq::new(
            self.n(),
            |i: int|
                if self.blocks@[i].skin_density >= AT_015 {
                    self.blocks@[i].eye_band
                } else {
                    0
                },
        )
    }

    /// The blocks that show a pupil.
    pub open spec fn pupilled(&self) -> Seq<bool> {
        Seq::new(self.n(), |i: int| crate::blocks::shows_pupil(self.blocks@[i]))
    }

    /// The blocks with much skin.
    pub open spec fn skinned(&self) -> Seq<bool> {
        Seq::new(self.n(), |i: int| self.blocks@[i].skin_density >= AT_020)
    }

    /// The blocks that a skin region is made of.
    pub open spec fn proposed(&self) -> Seq<bool> {
        Seq::new(self.n(), |i: int| self.blocks@[i].skin_density >= AT_030)
    }

    /// The number of flagged blocks, four at most.
    pub open spec fn up_to_four(&self, keep: Seq<bool>) -> int {
        crate::grid::least(
            crate::selection::sifted(crate::selection::every(self.n()), keep).len() as int,
            MAX_PUPILS as int,
        )
    }

    fn flag_pupils(&self) -> (r: Vec<bool>)
        ensures
            r@ == self.pupilled(),
    {
        let mut keep: Vec<bool> = Vec::new();
        let mut i: usize = 0;
        while i < self.blocks.len()
            invariant
                0 <= i <= self.n(),
                keep@ == self.pupilled().take(i as int),
            decreases self.n() - i,
        {
            let yes: bool = pupil_like(&self.blocks[i]);
            keep.push(yes);
            assert(yes == self.pupilled()[i as int]);
            i = i + 1;
            assert(keep@ == self.pupilled().take(i as int));
        }
        assert(keep@ == self.pupilled());
        keep
    }

    fn flag_skin(&self, mark: Rank) -> (r: Vec<bool>)
        ensures
            r@ == Seq::new(self.n(), |i: int| self.blocks@[i].skin_density >= mark),
    {
        let mut keep: Vec<bool> = Vec::new();
        let mut i: usize = 0;
        while i < self.blocks.len()
            invariant
                0 <= i <= self.n(),
                keep@.len() == i,
                forall|k: int|
                    0 <= k < i ==> #[trigger] keep@[k] == (self.blocks@[k].skin_density >= mark),
            decreases self.n() - i,
        {
            keep.push(self.blocks[i].skin_density >= mark);
            i = i + 1;
        }
        keep
    }

    fn eyes_on_skin(&self) -> (r: Vec<Rank>)
        ensures
            r@ == self.skin_eyes(),
    {
        let mut v: Vec<Rank> = Vec::new();
        let mut i: usize = 0;
        while i < self.blocks.len()
            invariant
                0 <= i <= self.n(),
                v@ == self.skin_eyes().take(i as int),
            decreases self.n() - i,
        {
            let b = &self.blocks[i];
            let eye: Rank = if b.skin_density >= AT_015 {
                b.eye_band
            } else {
                0
            };
            v.push(eye);
            assert(eye == self.skin_eyes()[i as int]);
            i = i + 1;
            assert(v@ == self.skin_eyes().take(i as int));
        }
        assert(v@ == self.skin_eyes());
        v
    }

    /// The eye band of the strongest block, zero without one.
    pub open spec fn peak_band(&self, peak: Option<usize>) -> int {
        match peak {
            Some(p) => self.blocks@[p as int].eye_band as int,
            None => 0,
        }
    }

    /// What the blocks of a crop show of a face.
    pub fn crop_face_evidence(&self) -> (r: CropEvidence)
        ensures
            r.peak is None <==> forall|i: int|
                0 <= i < self.n() ==> #[trigger] self.skin_eyes()[i] <= 0,
            r.peak matches Some(p) ==> p < self.n() && self.skin_eyes()[p as int] > 0
                && crate::ranking::is_first_max(self.skin_eyes(), p as int),
            self.peak_band(r.peak) == crate::ranking::peak_of(self.skin_eyes()),
            r.pupils == self.up_to_four(self.pupilled()),
            r.skin@ == crate::selection::sifted(
                crate::selection::every(self.n()),
                self.skinned(),
            ),
            crate::selection::all_below(r.skin@, self.n() as int),
            r.peak matches Some(p) ==> p < self.blocks@.len() && self.blocks@[p as int].skin_density
                >= AT_015 && self.blocks@[p as int].eye_band > 0,
            r.peak matches Some(p) ==> forall|i: int|
                0 <= i < self.blocks@.len() && (#[trigger] self.blocks@[i]).skin_density >= AT_015
                    ==> self.blocks@[i].eye_band <= self.blocks@[p as int].eye_band && (i < p
                    ==> self.blocks@[i].eye_band < self.blocks@[p as int].eye_band),
            r.peak is None ==> forall|i: int|
                0 <= i < self.blocks@.len() && (#[trigger] self.blocks@[i]).skin_density >= AT_015
                    ==> self.blocks@[i].eye_band <= 0,
            r.pupils <= 4,
            forall|i: usize|
                i < self.blocks@.len() ==> (#[trigger] r.skin@.contains(i)
                    <==> self.blocks@[i as int].skin_density >= AT_020),
    {
        let all = all_of(self.blocks.len());
        let peak = first_max_above(self.eyes_on_skin().as_slice(), 0);
        let count: usize = sift(&all, &self.flag_pupils()).len();
        let keep = self.flag_skin(AT_020);
        assert(keep@ == self.skinned());
        proof {
            crate::ranking::peaks_bound_the_list(self.skin_eyes());
            if let Some(p) = peak {
                assert(self.skin_eyes()[p as int] > 0);
                assert forall|i: int|
                    0 <= i < self.blocks@.len() && (#[trigger] self.blocks@[i]).skin_density
                        >= AT_015 implies self.blocks@[i].eye_band <= self.blocks@[p as int].eye_band
                    && (i < p ==> self.blocks@[i].eye_band < self.blocks@[p as int].eye_band) by {
                    assert(self.skin_eyes()[i] == self.blocks@[i].eye_band);
                }
            } else {
                assert forall|i: int|
                    0 <= i < self.blocks@.len() && (#[trigger] self.blocks@[i]).skin_density
                        >= AT_015 implies self.blocks@[i].eye_band <= 0 by {
                    assert(self.skin_eyes()[i] <= 0);
                }
            }
            assert(self.blocks.len() <= usize::MAX);
            assert forall|i: usize| i < self.blocks@.len() implies (
            #[trigger] crate::selection::sifted(all@, self.skinned()).contains(i)
                <==> self.blocks@[i as int].skin_density >= AT_020) by {
                assert(all@[i as int] == i);
                crate::selection::sifting_keeps_the_flagged(all@, self.skinned(), i);
            }
        }
        CropEvidence {
            peak,
            pupils: if count <= MAX_PUPILS {
                count
            } else {
                MAX_PUPILS
            },
            skin: sift(&all, &keep),
        }
    }

    /// The eye bands of the near blocks with skin, zero for the others.
    pub open spec fn near_eyes(&self, distance: Seq<Rank>, reach: Rank) -> Seq<Rank> {
        Seq::new(
            self.n(),
            |i: int|
                if distance[i] <= reach && self.blocks@[i].skin_density >= AT_015 {
                    self.blocks@[i].eye_band
                } else {
                    0
                },
        )
    }

    /// The near blocks that show a pupil.
    pub open spec fn near_pupils(&self, distance: Seq<Rank>, reach: Rank) -> Seq<bool> {
        Seq::new(
            self.n(),
            |i: int| distance[i] <= reach && crate::blocks::shows_pupil(self.blocks@[i]),
        )
    }

    /// What the blocks within reach of a point show of a face.
    pub fn point_evidence(&self, distance: &Vec<Rank>, reach: Rank) -> (r: PointEvidence)
        requires
            distance@.len() == self.n(),
        ensures
            r.peak_eye == crate::ranking::peak_of(self.near_eyes(distance@, reach)),
            r.pupils == self.up_to_four(self.near_pupils(distance@, reach)),
            r.pupils <= 4,
            r.peak_eye >= 0,
            forall|i: int|
                0 <= i < self.blocks@.len() && distance@[i] <= reach && (
                #[trigger] self.blocks@[i]).skin_density >= AT_015 ==> self.blocks@[i].eye_band
                    <= r.peak_eye,
            r.peak_eye > 0 ==> exists|i: int|
                0 <= i < self.blocks@.len() && distance@[i] <= reach && (
                #[trigger] self.blocks@[i]).skin_density >= AT_015 && self.blocks@[i].eye_band
                    == r.peak_eye,
    {
        let mut eyes: Vec<Rank> = Vec::new();
        let mut keep: Vec<bool> = Vec::new();
        let mut i: usize = 0;
        while i < self.blocks.len()
            invariant
                distance@.len() == self.n(),
                0 <= i <= self.n(),
                eyes@ == self.near_eyes(distance@, reach).take(i as int),
                keep@ == self.near_pupils(distance@, reach).take(i as int),
            decreases self.n() - i,
        {
            let b = &self.blocks[i];
            let near: bool = distance[i] <= reach;
            let eye: Rank = if near && b.skin_density >= AT_015 {
                b.eye_band
            } else {
                0
            };
            let pupil: bool = near && pupil_like(b);
            eyes.push(eye);
            keep.push(pupil);
            assert(eye == self.near_eyes(distance@, reach)[i as int]);
            assert(pupil == self.near_pupils(distance@, reach)[i as int]);
            i = i + 1;
            assert(eyes@ == self.near_eyes(distance@, reach).take(i as int));
            assert(keep@ == self.near_pupils(distance@, reach).take(i as int));
        }
        assert(eyes@ == self.near_eyes(distance@, reach));
        assert(keep@ == self.near_pupils(distance@, reach));
        proof {
            let v = self.near_eyes(distance@, reach);
            crate::ranking::peaks_bound_the_list(v);
            assert forall|i: int|
                0 <= i < self.blocks@.len() && distance@[i] <= reach && (
                #[trigger] self.blocks@[i]).skin_density >= AT_015 implies self.blocks@[i].eye_band
                <= crate::ranking::peak_of(v) by {
                assert(v[i] <= crate::ranking::peak_of(v));
            }
            if crate::ranking::peak_of(v) > 0 {
                let k = choose|k: int|
                    0 <= k < v.len() && #[trigger] v[k] == crate::ranking::peak_of(v);
                assert(distance@[k] <= reach && self.blocks@[k].skin_density >= AT_015
                    && self.blocks@[k].eye_band == v[k]);
            }
        }
        let all = all_of(self.blocks.len());
        let count: usize = sift(&all, &keep).len();
        PointEvidence {
            peak_eye: strongest(eyes.as_slice()),
            pupils: if count <= MAX_PUPILS {
                count
            } else {
                MAX_PUPILS
            },
        }
    }

    /// The blocks that a skin region can be made of.
    pub open spec fn skin_pool(&self) -> Seq<usize> {
        crate::selection::sifted(crate::selection::every(self.n()), self.proposed())
    }

    /// The blocks that a skin region can be made of.
    pub fn skin_blocks(&self) -> (r: Vec<usize>)
        ensures
            r@ == self.skin_pool(),
            crate::selection::all_below(r@, self.n() as int),
    {
        let all = all_of(self.blocks.len());
        let keep = self.flag_skin(AT_030);
        assert(keep@ == self.proposed());
        sift(&all, &keep)
    }

    /// Whether the first of the topmost skin blocks is at a position.
    pub open spec fn is_topmost(&self, pool: Seq<usize>, seed: int) -> bool {
        &&& 0 <= seed < pool.len()
        &&& forall|k: int|
            0 <= k < pool.len() ==> crate::blocks::rows2(self.blocks@, pool)[seed]
                <= #[trigger] crate::blocks::rows2(self.blocks@, pool)[k] && (k < seed
                ==> crate::blocks::rows2(self.blocks@, pool)[seed] < crate::blocks::rows2(
                self.blocks@,
                pool,
            )[k])
    }

    /// The region of a skin block: all skin blocks that hang together with it.
    pub open spec fn region_of(
        &self,
        pool: Seq<usize>,
        web: crate::clusters::Web,
        seed: int,
    ) -> Seq<usize> {
        crate::blocks::named(
            pool,
            web.flood_from(Seq::new(pool.len(), |j: int| false), seed).1,
        )
    }

    /// Whether a region shows what its guard asks for.
    pub open spec fn shows(&self, region: Seq<usize>, guard: SkinGuard) -> bool {
        exists|k: int|
            0 <= k < region.len() && {
                let b = self.blocks@[#[trigger] region[k] as int];
                match guard {
                    SkinGuard::Eyes => b.eye_band >= AT_008,
                    SkinGuard::EyesOrSkin => b.eye_band >= AT_005 || b.skin_density >= AT_055,
                }
            }
    }

    fn has_shown(&self, region: &Vec<usize>, guard: SkinGuard) -> (r: bool)
        requires
            crate::selection::all_below(region@, self.n() as int),
        ensures
            r == self.shows(region@, guard),
    {
        let mut k: usize = 0;
        while k < region.len()
            invariant
                crate::selection::all_below(region@, self.n() as int),
                0 <= k <= region@.len(),
                forall|j: int|
                    0 <= j < k ==> {
                        let b = self.blocks@[#[trigger] region@[j] as int];
                        match guard {
                            SkinGuard::Eyes => b.eye_band < AT_008,
                            SkinGuard::EyesOrSkin => b.eye_band < AT_005 && b.skin_density < AT_055,
                        }
                    },
            decreases region@.len() - k,
        {
            let b = &self.blocks[region[k]];
            let yes: bool = match guard {
                SkinGuard::Eyes => b.eye_band >= AT_008,
                SkinGuard::EyesOrSkin => b.eye_band >= AT_005 || b.skin_density >= AT_055,
            };
            if yes {
                assert(0 <= k < region@.len());
                assert(self.blocks@[region@[k as int] as int] == *b);
                return true;
            }
            k = k + 1;
        }
        false
    }

    /// The centres of a region's outermost blocks.
    pub open spec fn box_of(&self, region: Seq<usize>) -> SkinBox {
        let xs = crate::blocks::columns2(self.blocks@, region);
        let ys = crate::blocks::rows2(self.blocks@, region);
        SkinBox {
            x0: crate::selection::min_of(xs),
            y0: crate::selection::min_of(ys),
            x1: crate::selection::max_of(xs),
            y1: crate::selection::max_of(ys),
        }
    }

    /// Whether the topmost skin region is proposed: there is skin, the region
    /// is bigger than a single block, and it shows what the guard asks for.
    pub open spec fn proposes(
        &self,
        pool: Seq<usize>,
        web: crate::clusters::Web,
        seed: int,
        guard: SkinGuard,
    ) -> bool {
        let region = self.region_of(pool, web, seed);
        region.len() >= MIN_REGION && self.shows(region, guard)
    }

    /// The topmost skin region, if it is proposed. The links say which of the
    /// skin blocks are near each other.
    pub fn topmost_skin(&self, pool: &Vec<usize>, links: &Links, guard: SkinGuard) -> (r: Option<
        SkinBox,
    >)
        requires
            crate::selection::all_below(pool@, self.n() as int),
            links.well_formed(),
            links@.n() == pool@.len(),
        ensures
            pool@.len() == 0 ==> r is None,
            pool@.len() > 0 ==> exists|seed: int| #[trigger]
                self.is_topmost(pool@, seed) && (r is Some <==> self.proposes(
                    pool@,
                    links@,
                    seed,
                    guard,
                )) && (r matches Some(b) ==> b == self.box_of(
                    self.region_of(pool@, links@, seed),
                )),
    {
        if pool.len() == 0 {
            return None;
        }
        let seed: usize = self.topmost(pool);
        let mut visited: Vec<bool> = crate::counting::blank(pool.len());
        assert(visited@ == Seq::new(pool@.len(), |j: int| false));
        let found = links.cluster_of(seed, &mut visited);
        let mut region: Vec<usize> = Vec::new();
        let mut k: usize = 0;
        while k < found.len()
            invariant
                crate::selection::all_below(pool@, self.n() as int),
                crate::selection::all_below(found@, pool@.len() as int),
                0 <= k <= found@.len(),
                region@ == crate::blocks::named(pool@, found@.take(k as int)),
                crate::selection::all_below(region@, self.n() as int),
            decreases found@.len() - k,
        {
            region.push(pool[found[k]]);
            k = k + 1;
        }
        assert(found@.take(k as int) == found@);
        assert(region@ == self.region_of(pool@, links@, seed as int));
        assert(self.is_topmost(pool@, seed as int));
        if region.len() < MIN_REGION || !self.has_shown(&region, guard) {
            return None;
        }
        let xs = columns_of(&self.blocks, &region);
        let ys = rows_of(&self.blocks, &region);
        Some(SkinBox { x0: lowest(&xs), y0: lowest(&ys), x1: highest(&xs), y1: highest(&ys) })
    }

    fn topmost(&self, pool: &Vec<usize>) -> (r: usize)
        requires
            pool@.len() > 0,
            crate::selection::all_below(pool@, self.n() as int),
        ensures
            self.is_topmost(pool@, r as int),
    {
        let ys = rows_of(&self.blocks, pool);
        let mut best: usize = 0;
        let mut k: usize = 1;
        while k < ys.len()
            invariant
                ys@ == crate::blocks::rows2(self.blocks@, pool@),
                0 <= best < k <= ys@.len(),
                forall|j: int|
                    0 <= j < k ==> ys@[best as int] <= #[trigger] ys@[j] && (j < best
                        ==> ys@[best as int] < ys@[j]),
            decreases ys@.len() - k,
        {
            if ys[k] < ys[best] {
                best = k;
            }
            k = k + 1;
        }
        best
    }
}

/// Which skin blocks are near each other, from how far apart the centres of each
/// two are, in shares of the frame's width and height.
pub open spec fn skin_web(n: nat, across: Seq<Rank>, down: Seq<Rank>) -> crate::clusters::Web {
    crate::clusters::Web::Table {
        n,
        near: Seq::new(n * n, |k: int| across[k] <= AT_012 && down[k] <= AT_010),
    }
}

/// Which skin blocks are near each other. The tables have one row for each
/// block, with its distances from every block.
pub fn skin_links(n: usize, across: &Vec<Rank>, down: &Vec<Rank>) -> (r: Links)
    requires
        across@.len() == n * n,
        down@.len() == n * n,
    ensures
        r.well_formed(),
        r@ == skin_web(n as nat, across@, down@),
        r@.n() == n,
        forall|i: int, j: int|
            0 <= i < n && 0 <= j < n ==> #[trigger] r@.is_near(i, j) == (across@[i * n + j] <= AT_012
                && down@[i * n + j] <= AT_010),
{
    let mut near: Vec<bool> = Vec::new();
    let mut k: usize = 0;
    while k < across.len()
        invariant
            across@.len() == n * n,
            down@.len() == n * n,
            0 <= k <= across@.len(),
            near@.len() == k,
            forall|j: int|
                0 <= j < k ==> #[trigger] near@[j] == (across@[j] <= AT_012 && down@[j] <= AT_010),
        decreases across@.len() - k,
    {
        near.push(across[k] <= AT_012 && down[k] <= AT_010);
        k = k + 1;
    }
    assert(near@ == Seq::new((n * n) as nat, |k: int| across@[k] <= AT_012 && down@[k] <= AT_010));
    proof {
        assert forall|i: int, j: int| 0 <= i < n && 0 <= j < n implies #[trigger] skin_web(
            n as nat,
            across@,
            down@,
        ).is_near(i, j) == (across@[i * n + j] <= AT_012 && down@[i * n + j] <= AT_010) by {
            skin_blocks_are_near_in_both_ways(n as nat, across@, down@, i, j);
        }
    }
    Links::Table { n, near }
}

/// Whether a region is too long and thin for a head.
pub fn is_sliver(aspect: Rank) -> (r: bool)
    ensures
        r == (aspect > AT_350),
{
    aspect > AT_350
}

/// Whether an eye pair sits above a line and close to the strongest eye band.
pub open spec fn pair_fits(p: PairReport, line: Rank, reach: Rank) -> bool {
    p.y < line && p.gap <= reach
}

/// Whether any eye pair does.
pub open spec fn any_fits(pairs: Seq<PairReport>, line: Rank, reach: Rank) -> bool {
    exists|k: int| 0 <= k < pairs.len() && pair_fits(#[trigger] pairs[k], line, reach)
}

/// Whether a crop is face-like: an eye pair sits above the line and close to
/// the strongest eye band.
pub fn face_like(pairs: &Vec<PairReport>, line: Rank, reach: Rank) -> (r: bool)
    ensures
        r == any_fits(pairs@, line, reach),
        r ==> exists|k: int|
            0 <= k < pairs@.len() && (#[trigger] pairs@[k]).y < line && pairs@[k].gap <= reach,
        forall|k: int|
            0 <= k < pairs@.len() && (#[trigger] pairs@[k]).y < line && pairs@[k].gap <= reach ==> r,
{
    let mut k: usize = 0;
    while k < pairs.len()
        invariant
            0 <= k <= pairs@.len(),
            forall|j: int| 0 <= j < k ==> !pair_fits(#[trigger] pairs@[j], line, reach),
        decreases pairs@.len() - k,
    {
        if pairs[k].y < line && pairs[k].gap <= reach {
            assert(pair_fits(pairs@[k as int], line, reach));
            return true;
        }
        k = k + 1;
    }
    false
}

/// Whether a crop is verified: face-like, with evidence of 0.25 at least, and
/// as much as is needed to beat the point.
pub open spec fn verified(face_like: bool, evidence: Rank, needed: Rank) -> bool {
    face_like && evidence >= AT_025 && evidence >= needed
}

/// Whether a crop is verified; `needed` is the evidence at the point and a
/// margin.
pub fn crop_verified(face_like: bool, evidence: Rank, needed: Rank) -> (r: bool)
    ensures
        r == verified(face_like, evidence, needed),
        r == (face_like && evidence >= AT_025 && evidence >= needed),
{
    face_like && evidence >= AT_025 && evidence >= needed
}

/// Whether a crop's point replaces the first one: it is verified, where two
/// eye pairs spare it the margin, or the first point shows no face at all and
/// the crop a clear one.
pub open spec fn replaces(
    face_like: bool,
    pairs: int,
    evidence: Rank,
    base: Rank,
    needed: Rank,
    desperate: Rank,
) -> bool {
    verified(
        face_like,
        evidence,
        if pairs >= 2 {
            base
        } else {
            needed
        },
    ) || (base < AT_005 && evidence >= desperate)
}

/// Whether a crop's point replaces the first one.
pub fn zoom_accepted(
    face_like: bool,
    pairs: usize,
    evidence: Rank,
    base: Rank,
    needed: Rank,
    desperate: Rank,
) -> (r: bool)
    ensures
        r == replaces(face_like, pairs as int, evidence, base, needed, desperate),
        base < AT_005 && evidence >= desperate ==> r,
        face_like && evidence >= AT_025 && evidence >= needed && pairs <= 1 ==> r,
        face_like && evidence >= AT_025 && evidence >= base && pairs >= 2 ==> r,
        r ==> (base < AT_005 && evidence >= desperate) || (face_like && evidence >= AT_025 && (if pairs
            >= 2 {
            evidence >= base
        } else {
            evidence >= needed
        })),
{
    let clears: bool = if pairs >= 2 {
        evidence >= base
    } else {
        evidence >= needed
    };
    (face_like && evidence >= AT_025 && clears) || (base < AT_005 && evidence >= desperate)
}

/// The pixels of a crop, if it is large enough for a second look.
pub fn crop_size(x0: u32, y0: u32, x1: u32, y1: u32) -> (r: Option<(u32, u32)>)
    ensures
        r is Some <==> (x1 - x0 >= MIN_CROP && y1 - y0 >= MIN_CROP),
        r matches Some(s) ==> s.0 == x1 - x0 && s.1 == y1 - y0,
        r is Some <==> x1 - x0 >= 48 && y1 - y0 >= 48,
{
    if x1 < x0 || y1 < y0 {
        return None;
    }
    let w: u32 = x1 - x0;
    let h: u32 = y1 - y0;
    if w >= MIN_CROP && h >= MIN_CROP {
        Some((w, h))
    } else {
        None
    }
}

/// Whether a frame can be analysed.
pub fn large_enough(w: u32, h: u32) -> (r: bool)
    ensures
        r == (w >= MIN_FRAME && h >= MIN_FRAME),
        r == (w >= 3 && h >= 3),
{
    w >= MIN_FRAME && h >= MIN_FRAME
}

/// Whether a region is proposed for a second look: one was found, and the frame
/// has colour.
pub fn proposes_region(category: Category, found: bool) -> (r: bool)
    ensures
        r == (category != Category::Mono && found),
{
    category != Category::Mono && found
}

/// Whether saliency peaks are proposed for a second look: in frames with colour,
/// by the average saturation.
pub fn proposes_peaks(avg_sat: Rank) -> (r: bool)
    ensures
        r == (avg_sat >= AT_005),
{
    !is_mono(avg_sat)
}

/// Whether a frame is scaled down: its long edge is over the limit.
pub fn scales_down(w: u32, h: u32, max_dim: u32) -> (r: bool)
    ensures
        r == (w > max_dim || h > max_dim),
{
    w > max_dim || h > max_dim
}

/// Where a mouth is looked for below an eye pair, in pixels, and the edges there.
pub struct MouthBox {
    pub x0: usize,
    pub x1: usize,
    pub y0: usize,
    pub y1: usize,
    /// The average of the level edges in the box, if there are any.
    pub edges: Option<Rank>,
    /// What that average has to reach.
    pub floor: Option<Rank>,
}

/// Whether there is a mouth in a box.
pub open spec fn shows_mouth(b: MouthBox) -> bool {
    b.x1 - b.x0 >= 2 && b.y1 - b.y0 >= 2 && match (b.edges, b.floor) {
        (Some(e), Some(f)) => e >= f,
        _ => false,
    }
}

/// Whether there is a mouth in a box: it is three pixels wide and high at least,
/// and its level edges reach the floor.
pub fn has_mouth(b: &MouthBox) -> (r: bool)
    ensures
        r == shows_mouth(*b),
{
    let strong: bool = match (b.edges, b.floor) {
        (Some(e), Some(f)) => e >= f,
        _ => false,
    };
    b.x1 >= b.x0 && b.x1 - b.x0 >= 2 && b.y1 >= b.y0 && b.y1 - b.y0 >= 2 && strong
}

/// The pairs with a mouth among the first `upto`, in order.
pub open spec fn mouthed(pairs: Seq<EyePair>, boxes: Seq<MouthBox>, upto: int) -> Seq<EyePair>
    decreases upto,
{
    if upto <= 0 {
        Seq::empty()
    } else if shows_mouth(boxes[upto - 1]) {
        mouthed(pairs, boxes, upto - 1).push(pairs[upto - 1])
    } else {
        mouthed(pairs, boxes, upto - 1)
    }
}

/// The pairs with a mouth; the boxes are those of the pairs.
pub fn mouth_filter(pairs: &Vec<EyePair>, boxes: &Vec<MouthBox>) -> (r: Vec<EyePair>)
    requires
        boxes@.len() == pairs@.len(),
    ensures
        r@ == mouthed(pairs@, boxes@, pairs@.len() as int),
{
    let mut r: Vec<EyePair> = Vec::new();
    let mut k: usize = 0;
    while k < pairs.len()
        invariant
            boxes@.len() == pairs@.len(),
            0 <= k <= pairs@.len(),
            r@ == mouthed(pairs@, boxes@, k as int),
        decreases pairs@.len() - k,
    {
        if has_mouth(&boxes[k]) {
            r.push(pairs[k]);
        }
        k = k + 1;
    }
    r
}

/// What is seen near a point is no more than what is seen in all of the frame:
/// no stronger eye band and no more pupils, of which four count at most.
/// Nothing is seen where no block is near.
pub proof fn near_evidence_is_no_stronger(e: Evidence, distance: Seq<Rank>, reach: Rank)
    requires
        e.n() <= usize::MAX,
        distance.len() == e.n(),
    ensures
        0 <= crate::ranking::peak_of(e.near_eyes(distance, reach)) <= crate::ranking::peak_of(
            e.skin_eyes(),
        ),
        0 <= e.up_to_four(e.near_pupils(distance, reach)) <= e.up_to_four(e.pupilled())
            <= MAX_PUPILS,
        (forall|i: int| 0 <= i < e.n() ==> #[trigger] distance[i] > reach)
            ==> crate::ranking::peak_of(e.near_eyes(distance, reach)) == 0 && e.up_to_four(
            e.near_pupils(distance, reach),
        ) == 0,
        (forall|i: int| 0 <= i < e.n() ==> (#[trigger] e.blocks@[i]).eye_band <= AT_100)
            ==> crate::ranking::peak_of(e.skin_eyes()) <= AT_100,
{
    let near = e.near_eyes(distance, reach);
    let all = e.skin_eyes();
    let every = crate::selection::every(e.n());
    crate::ranking::peaks_bound_the_list(near);
    crate::ranking::peaks_bound_the_list(all);
    if crate::ranking::peak_of(near) > 0 {
        let k = choose|k: int| 0 <= k < near.len() && near[k] == crate::ranking::peak_of(near);
        assert(all[k] == near[k]);
    }
    if crate::ranking::peak_of(all) > 0 {
        let k = choose|k: int| 0 <= k < all.len() && all[k] == crate::ranking::peak_of(all);
        assert(all[k] <= e.blocks@[k].eye_band || all[k] == 0);
    }
    assert(crate::selection::all_below(every, e.n() as int));
    crate::selection::fewer_flags_keep_fewer(every, e.near_pupils(distance, reach), e.pupilled());
    if forall|i: int| 0 <= i < e.n() ==> #[trigger] distance[i] > reach {
        let kept = crate::selection::sifted(every, e.near_pupils(distance, reach));
        if kept.len() > 0 {
            crate::selection::sifting_keeps_the_flagged(
                every,
                e.near_pupils(distance, reach),
                kept[0],
            );
            assert(kept.contains(kept[0]));
            let i = choose|i: int| 0 <= i < every.len() && every[i] == kept[0];
            assert(distance[i] > reach);
        }
    }
}

/// A skin region has nothing but skin, and starts at the topmost of it: its
/// upper edge is the row of the first topmost skin block, and no skin block of
/// the frame is above it.
pub proof fn skin_regions_start_at_the_top(e: Evidence, web: crate::clusters::Web, seed: int)
    requires
        e.n() <= usize::MAX,
        web.well_formed(),
        web.n() == e.skin_pool().len(),
        e.is_topmost(e.skin_pool(), seed),
    ensures
        forall|k: int|
            0 <= k < e.region_of(e.skin_pool(), web, seed).len() ==> e.blocks@[#[trigger] e.region_of(
                e.skin_pool(),
                web,
                seed,
            )[k] as int].skin_density >= AT_030,
        e.box_of(e.region_of(e.skin_pool(), web, seed)).y0 == crate::blocks::rows2(
            e.blocks@,
            e.skin_pool(),
        )[seed],
        forall|i: int|
            0 <= i < e.n() && (#[trigger] e.blocks@[i]).skin_density >= AT_030 ==> e.box_of(
                e.region_of(e.skin_pool(), web, seed),
            ).y0 <= e.blocks@[i].rect.cy2(),
{
    let pool = e.skin_pool();
    let all = crate::selection::every(e.n());
    let found = web.flood_from(Seq::new(pool.len(), |j: int| false), seed).1;
    let region = e.region_of(pool, web, seed);
    let ys = crate::blocks::rows2(e.blocks@, region);
    let tops = crate::blocks::rows2(e.blocks@, pool);
    crate::clusters::a_search_finds_what_is_connected(web, seed, seed);
    assert(web.steps(0, seed, seed));
    assert forall|k: int| 0 <= k < region.len() implies e.blocks@[#[trigger] region[k] as int].skin_density
        >= AT_030 by {
        assert(found[k] < pool.len());
        assert(pool.contains(region[k]));
        crate::selection::sifting_keeps_the_flagged(all, e.proposed(), region[k]);
    }
    let b = choose|b: int| 0 <= b < found.len() && found[b] == seed as usize;
    assert(ys[b] == tops[seed]);
    crate::selection::extremes_bound_the_list(ys);
    let m = choose|m: int| 0 <= m < ys.len() && ys[m] == crate::selection::min_of(ys);
    assert(found[m] < pool.len());
    assert(ys[m] == tops[found[m] as int]);
    assert forall|i: int|
        0 <= i < e.n() && (#[trigger] e.blocks@[i]).skin_density >= AT_030 implies tops[seed]
        <= e.blocks@[i].rect.cy2() by {
        assert(all[i] == i as usize);
        crate::selection::sifting_keeps_the_flagged(all, e.proposed(), i as usize);
        let k = choose|k: int| 0 <= k < pool.len() && pool[k] == i as usize;
        assert(tops[seed] <= tops[k]);
    }
}

/// Asking for more of the eye pairs never verifies more crops: a crop that
/// passes with some of its pairs passes with all of them.
pub proof fn fewer_pairs_verify_no_more(
    some: Seq<PairReport>,
    all: Seq<PairReport>,
    line: Rank,
    reach: Rank,
    evidence: Rank,
    needed: Rank,
)
    requires
        forall|k: int| 0 <= k < some.len() ==> all.contains(#[trigger] some[k]),
        verified(any_fits(some, line, reach), evidence, needed),
    ensures
        verified(any_fits(all, line, reach), evidence, needed),
{
    let k = choose|k: int| 0 <= k < some.len() && pair_fits(#[trigger] some[k], line, reach);
    assert(all.contains(some[k]));
    let j = choose|j: int| 0 <= j < all.len() && all[j] == some[k];
    assert(pair_fits(all[j], line, reach));
}

/// A crop that is verified with the margin replaces the first point, however
/// many pairs it has.
pub proof fn a_verified_crop_replaces(
    face_like: bool,
    pairs: int,
    evidence: Rank,
    base: Rank,
    needed: Rank,
    desperate: Rank,
)
    requires
        verified(face_like, evidence, needed),
        base <= needed,
    ensures
        replaces(face_like, pairs, evidence, base, needed, desperate),
{
}

/// A crop that is not face-like never displaces a point that shows a face.
pub proof fn faces_are_not_displaced_blindly(
    pairs: int,
    evidence: Rank,
    base: Rank,
    needed: Rank,
    desperate: Rank,
)
    requires
        base >= AT_005,
    ensures
        !replaces(false, pairs, evidence, base, needed, desperate),
{
}

/// Two skin blocks are near each other if their centres are at most 0.12 of the
/// width and 0.10 of the height apart, both at once.
pub proof fn skin_blocks_are_near_in_both_ways(
    n: nat,
    across: Seq<Rank>,
    down: Seq<Rank>,
    i: int,
    j: int,
)
    requires
        0 <= i < n,
        0 <= j < n,
    ensures
        skin_web(n, across, down).n() == n,
        skin_web(n, across, down).is_near(i, j) <==> across[i * n + j] <= AT_012 && down[i * n + j]
            <= AT_010,
{
    assert(0 <= i * n + j < n * n) by (nonlinear_arith)
        requires
            0 <= i < n,
            0 <= j < n,
    ;
}

/// A region can be made of the blocks with skin of 0.30 and of no others.
pub proof fn skin_regions_are_made_of_skin(e: Evidence, i: usize)
    requires
        i < e.n(),
    ensures
        e.skin_pool().contains(i) <==> e.blocks@[i as int].skin_density >= AT_030,
{
    let all = crate::selection::every(e.n());
    assert(all[i as int] == i);
    crate::selection::sifting_keeps_the_flagged(all, e.proposed(), i);
}

/// The pupils of a crop are the blocks that show one, four at most: they are
/// counted in full up to four, and none is seen only where no block shows any.
pub proof fn pupils_count_up_to_four(e: Evidence, keep: Seq<bool>)
    requires
        e.n() <= usize::MAX,
    ensures
        ({
            let kept = crate::selection::sifted(crate::selection::every(e.n()), keep);
            &&& kept.len() <= 4 ==> e.up_to_four(keep) == kept.len()
            &&& kept.len() >= 4 ==> e.up_to_four(keep) == 4
        }),
        forall|i: int|
            0 <= i < e.n() ==> #[trigger] e.pupilled()[i] == (e.blocks@[i].radial
                >= crate::marks::AT_060 && e.blocks@[i].skin_density >= AT_020
                && e.blocks@[i].face_boost >= crate::marks::AT_045),
        forall|distance: Seq<Rank>, reach: Rank, i: int|
            0 <= i < e.n() ==> #[trigger] e.near_pupils(distance, reach)[i] == (distance[i] <= reach
                && e.pupilled()[i]),
{
}

/// A region is proposed for its eyes if a block of it has an eye band of 0.08, and
/// for its eyes or skin if one has an eye band of 0.05 or skin of 0.55; it has two
/// blocks at least.
pub proof fn regions_show_what_is_asked_for(e: Evidence, region: Seq<usize>, k: int)
    requires
        0 <= k < region.len(),
    ensures
        e.blocks@[region[k] as int].eye_band >= AT_008 ==> e.shows(region, SkinGuard::Eyes),
        e.blocks@[region[k] as int].eye_band >= AT_005 ==> e.shows(region, SkinGuard::EyesOrSkin),
        e.blocks@[region[k] as int].skin_density >= AT_055 ==> e.shows(
            region,
            SkinGuard::EyesOrSkin,
        ),
        e.shows(region, SkinGuard::Eyes) ==> exists|j: int|
            0 <= j < region.len() && e.blocks@[#[trigger] region[j] as int].eye_band >= AT_008,
        e.shows(region, SkinGuard::EyesOrSkin) ==> exists|j: int|
            0 <= j < region.len() && (e.blocks@[#[trigger] region[j] as int].eye_band >= AT_005
                || e.blocks@[region[j] as int].skin_density >= AT_055),
        e.shows(region, SkinGuard::Eyes) ==> e.shows(region, SkinGuard::EyesOrSkin),
{
    if e.shows(region, SkinGuard::Eyes) {
        let j = choose|j: int|
            0 <= j < region.len() && e.blocks@[#[trigger] region[j] as int].eye_band >= AT_008;
        assert(e.blocks@[region[j] as int].eye_band >= AT_008);
    }
    if e.shows(region, SkinGuard::EyesOrSkin) {
        let j = choose|j: int|
            0 <= j < region.len() && (e.blocks@[#[trigger] region[j] as int].eye_band >= AT_005
                || e.blocks@[region[j] as int].skin_density >= AT_055);
        assert(e.blocks@[region[j] as int].eye_band >= AT_005
            || e.blocks@[region[j] as int].skin_density >= AT_055);
    }
}

/// The topmost region is proposed if it has two blocks or more and shows what is
/// asked for: one block alone never is.
pub proof fn single_blocks_are_no_region(
    e: Evidence,
    pool: Seq<usize>,
    web: crate::clusters::Web,
    seed: int,
    guard: SkinGuard,
)
    ensures
        e.region_of(pool, web, seed).len() <= 1 ==> !e.proposes(pool, web, seed, guard),
        e.region_of(pool, web, seed).len() >= 2 ==> (e.proposes(pool, web, seed, guard) <==> e.shows(
            e.region_of(pool, web, seed),
            guard,
        )),
{
}

/// The region of a block is all that hangs together with it: exactly the blocks of
/// the pool that steps between near blocks lead to.
pub proof fn regions_are_what_hangs_together(
    e: Evidence,
    pool: Seq<usize>,
    web: crate::clusters::Web,
    seed: int,
    j: int,
)
    requires
        web.well_formed(),
        web.n() == pool.len(),
        0 <= seed < pool.len(),
        0 <= j < pool.len(),
        web.connected(seed, j),
    ensures
        e.region_of(pool, web, seed).contains(pool[j]),
        e.region_of(pool, web, seed).contains(pool[seed]),
{
    let found = web.flood_from(Seq::new(pool.len(), |j: int| false), seed).1;
    crate::clusters::a_search_finds_what_is_connected(web, seed, j);
    crate::clusters::a_search_finds_what_is_connected(web, seed, seed);
    assert(web.steps(0, seed, seed));
    let a = choose|a: int| 0 <= a < found.len() && found[a] == j as usize;
    let b = choose|b: int| 0 <= b < found.len() && found[b] == seed as usize;
    assert(e.region_of(pool, web, seed)[a] == pool[j]);
    assert(e.region_of(pool, web, seed)[b] == pool[seed]);
}

/// The box of a region holds the centre of each of its blocks, and one of them
/// lies on each of its sides.
pub proof fn boxes_hold_their_region(e: Evidence, region: Seq<usize>, k: int)
    requires
        0 <= k < region.len(),
    ensures
        ({
            let b = e.box_of(region);
            let xs = crate::blocks::columns2(e.blocks@, region);
            let ys = crate::blocks::rows2(e.blocks@, region);
            let r = e.blocks@[region[k] as int].rect;
            &&& xs[k] == 2 * r.x + r.w
            &&& ys[k] == 2 * r.y + r.h
            &&& b.x0 <= xs[k] <= b.x1
            &&& b.y0 <= ys[k] <= b.y1
            &&& xs.contains(b.x0) && xs.contains(b.x1)
            &&& ys.contains(b.y0) && ys.contains(b.y1)
        }),
{
    crate::selection::extremes_bound_the_list(crate::blocks::columns2(e.blocks@, region));
    crate::selection::extremes_bound_the_list(crate::blocks::rows2(e.blocks@, region));
}

/// One eye pair above the line and within reach makes a crop face-like, and
/// nothing less does.
pub proof fn a_pair_above_the_line_is_enough(
    pairs: Seq<PairReport>,
    p: PairReport,
    line: Rank,
    reach: Rank,
)
    ensures
        !any_fits(Seq::empty(), line, reach),
        p.y < line && p.gap <= reach ==> any_fits(pairs.push(p), line, reach),
        p.y >= line || p.gap > reach ==> (any_fits(pairs.push(p), line, reach) <==> any_fits(
            pairs,
            line,
            reach,
        )),
{
    let more = pairs.push(p);
    if p.y < line && p.gap <= reach {
        assert(pair_fits(more[pairs.len() as int], line, reach));
    }
    if any_fits(pairs, line, reach) {
        let k = choose|k: int| 0 <= k < pairs.len() && pair_fits(#[trigger] pairs[k], line, reach);
        assert(pair_fits(more[k], line, reach));
    }
    if any_fits(more, line, reach) {
        let k = choose|k: int| 0 <= k < more.len() && pair_fits(#[trigger] more[k], line, reach);
        if k < pairs.len() {
            assert(pair_fits(pairs[k], line, reach));
        }
    }
}

/// A crop is verified with evidence of 0.25 that is also what is needed, if it is
/// face-like, and not otherwise; more evidence never hurts.
pub proof fn more_evidence_verifies_no_less(less: Rank, more: Rank, needed: Rank)
    requires
        less <= more,
    ensures
        verified(true, less, needed) ==> verified(true, more, needed),
        !verified(false, more, needed),
        more < AT_025 ==> !verified(true, more, needed),
        more < needed ==> !verified(true, more, needed),
        more >= AT_025 && more >= needed ==> verified(true, more, needed),
{
}

/// When a crop's point replaces the first one: with two eye pairs it has to match
/// the first point's evidence, with fewer to beat it by the margin; and where the
/// first point has less than 0.05, strong evidence alone is enough.
pub proof fn crops_replace_weaker_points(
    face_like: bool,
    pairs: int,
    evidence: Rank,
    base: Rank,
    needed: Rank,
    desperate: Rank,
)
    ensures
        base < AT_005 && evidence >= desperate ==> replaces(
            face_like,
            pairs,
            evidence,
            base,
            needed,
            desperate,
        ),
        face_like && pairs >= 2 && evidence >= AT_025 && evidence >= base ==> replaces(
            face_like,
            pairs,
            evidence,
            base,
            needed,
            desperate,
        ),
        face_like && evidence >= AT_025 && evidence >= base && evidence >= needed ==> replaces(
            face_like,
            pairs,
            evidence,
            base,
            needed,
            desperate,
        ),
        replaces(face_like, pairs, evidence, base, needed, desperate) && base >= AT_005 ==> face_like
            && evidence >= AT_025 && (evidence >= needed || (pairs >= 2 && evidence >= base)),
        replaces(face_like, pairs, evidence, base, needed, desperate) && evidence < desperate
            ==> face_like && evidence >= AT_025 && (evidence >= needed || (pairs >= 2 && evidence
            >= base)),
        replaces(face_like, pairs, evidence, base, needed, desperate) && base >= AT_005 && pairs <= 1
            ==> evidence >= needed,
        replaces(face_like, pairs, evidence, base, needed, desperate) && base >= AT_005 && pairs >= 2
            ==> evidence >= base,
{
}

/// A mouth needs a box at least three pixels wide and high in which the level
/// edges are measured and reach their floor; any such box shows one.
pub proof fn mouths_need_room_and_edges(b: MouthBox)
    ensures
        b.x1 < b.x0 + 2 ==> !shows_mouth(b),
        b.y1 < b.y0 + 2 ==> !shows_mouth(b),
        b.edges is None || b.floor is None ==> !shows_mouth(b),
        b.edges matches Some(e) ==> (b.floor matches Some(f) ==> (e < f ==> !shows_mouth(b))),
        b.edges matches Some(e) ==> (b.floor matches Some(f) ==> (e >= f && b.x0 + 2 <= b.x1 && b.y0
            + 2 <= b.y1 ==> shows_mouth(b))),
{
}

/// Pairs are kept in order, each exactly if its box shows a mouth.
pub proof fn pairs_without_a_mouth_are_dropped(
    pairs: Seq<EyePair>,
    boxes: Seq<MouthBox>,
    upto: int,
)
    requires
        0 <= upto < pairs.len(),
        boxes.len() == pairs.len(),
    ensures
        mouthed(pairs, boxes, 0) == Seq::<EyePair>::empty(),
        shows_mouth(boxes[upto]) ==> mouthed(pairs, boxes, upto + 1) == mouthed(
            pairs,
            boxes,
            upto,
        ).push(pairs[upto]),
        !shows_mouth(boxes[upto]) ==> mouthed(pairs, boxes, upto + 1) == mouthed(
            pairs,
            boxes,
            upto,
        ),
{
}

/// The topmost skin block is the first of those whose centre is highest.
pub proof fn the_topmost_block_is_the_first(e: Evidence, pool: Seq<usize>, seed: int, k: int)
    requires
        e.is_topmost(pool, seed),
        0 <= k < pool.len(),
    ensures
        ({
            let top = e.blocks@[pool[seed] as int].rect;
            let other = e.blocks@[pool[k] as int].rect;
            &&& 2 * top.y + top.h <= 2 * other.y + other.h
            &&& k < seed ==> 2 * top.y + top.h < 2 * other.y + other.h
        }),
{
    assert(crate::blocks::rows2(e.blocks@, pool)[seed] <= crate::blocks::rows2(e.blocks@, pool)[k]);
}

/// Evidence comes from eye bands on skin of 0.15, near a point from those within
/// reach only; it is as strong as the strongest of them and nothing without one.
pub proof fn evidence_is_the_strongest_eye_on_skin(
    e: Evidence,
    distance: Seq<Rank>,
    reach: Rank,
    i: int,
)
    requires
        distance.len() == e.n(),
        0 <= i < e.n(),
    ensures
        e.blocks@[i].skin_density >= AT_015 ==> e.skin_eyes()[i] == e.blocks@[i].eye_band,
        e.blocks@[i].skin_density < AT_015 ==> e.skin_eyes()[i] == 0,
        e.blocks@[i].skin_density >= AT_015 && distance[i] <= reach ==> e.near_eyes(distance, reach)[i]
            == e.blocks@[i].eye_band,
        e.blocks@[i].skin_density < AT_015 || distance[i] > reach ==> e.near_eyes(distance, reach)[i]
            == 0,
        e.blocks@[i].skin_density >= AT_015 ==> e.blocks@[i].eye_band <= crate::ranking::peak_of(
            e.skin_eyes(),
        ),
        e.blocks@[i].skin_density >= AT_015 && distance[i] <= reach ==> e.blocks@[i].eye_band
            <= crate::ranking::peak_of(e.near_eyes(distance, reach)),
        crate::ranking::peak_of(e.skin_eyes()) > 0 ==> exists|k: int|
            0 <= k < e.n() && (#[trigger] e.blocks@[k]).skin_density >= AT_015 && e.blocks@[k].eye_band
                == crate::ranking::peak_of(e.skin_eyes()),
        e.skinned()[i] == (e.blocks@[i].skin_density >= AT_020),
{
    let v = e.skin_eyes();
    crate::ranking::peaks_bound_the_list(v);
    crate::ranking::peaks_bound_the_list(e.near_eyes(distance, reach));
    assert(v[i] <= crate::ranking::peak_of(v));
    assert(e.near_eyes(distance, reach)[i] <= crate::ranking::peak_of(e.near_eyes(distance, reach)));
    if crate::ranking::peak_of(v) > 0 {
        let k = choose|k: int| 0 <= k < v.len() && #[trigger] v[k] == crate::ranking::peak_of(v);
        assert(e.blocks@[k].skin_density >= AT_015 && e.blocks@[k].eye_band == v[k]);
    }
}

/// The limits of a second look: a crop of 48 pixels each way, a frame of three, a
/// region no more than 3.5 times as long as wide.
pub proof fn second_looks_have_limits(
    x0: u32,
    y0: u32,
    x1: u32,
    y1: u32,
    size: Option<(u32, u32)>,
    large: bool,
    aspect: Rank,
    sliver: bool,
)
    requires
        call_ensures(crop_size, (x0, y0, x1, y1), size),
        call_ensures(large_enough, (x1, y1), large),
        call_ensures(is_sliver, (aspect,), sliver),
    ensures
        x0 + 48 > x1 || y0 + 48 > y1 ==> size is None,
        x0 + 48 <= x1 && y0 + 48 <= y1 ==> (size matches Some(s) && s.0 == x1 - x0 && s.1 == y1 - y0),
        large <==> x1 >= 3 && y1 >= 3,
        sliver <==> aspect > AT_350,
{
}

/// Regions and peaks are proposed in frames with colour only; a frame is scaled
/// down if either edge is over the limit, so never twice.
pub proof fn proposals_need_colour(
    category: Category,
    found: bool,
    region: bool,
    avg_sat: Rank,
    peaks: bool,
    w: u32,
    h: u32,
    limit: u32,
    scaled: bool,
)
    requires
        call_ensures(proposes_region, (category, found), region),
        call_ensures(proposes_peaks, (avg_sat,), peaks),
        call_ensures(scales_down, (w, h, limit), scaled),
    ensures
        category == Category::Mono ==> !region,
        category != Category::Mono ==> region == found,
        avg_sat < AT_005 ==> !peaks,
        avg_sat >= AT_005 ==> peaks,
        w <= limit && h <= limit ==> !scaled,
        w > limit ==> scaled,
        h > limit ==> scaled,
{
}

} // verus!
