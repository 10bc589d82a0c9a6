//! The refinement of a point towards the eyes near it.

use crate::blocks::{span_box, BlockMeta};
use crate::grid::Frame;
use crate::marks::{AT_012, AT_016, AT_022, AT_030};
use crate::rank::Rank;
use crate::ranking::{first_max_above, strongest};
use crate::selection::{all_of, sift};
use vstd::prelude::*;

verus! {

/// The number of blocks with eyes from which a point is refined.
pub const MIN_EYE_BLOCKS: usize = 3;

/// The blocks of a frame and how far each is from the point.
pub struct RefineField {
    pub frame: Frame,
    pub blocks: Vec<BlockMeta>,
    pub distance: Vec<Rank>,
    /// Seven blocks.
    pub reach: Rank,
}

/// The pixels that are searched: columns from `x0` up to `x1`, rows from `y0`
/// up to `y1`.
#[derive(Clone, Copy, PartialEq, Eq, Structural)]
pub struct EyeRegion {
    pub x0: u64,
    pub y0: u64,
    pub x1: u64,
    pub y1: u64,
}

/// What is left of `a` when `b` is taken away, zero at least.
pub open spec fn less(a: int, b: int) -> int {
    if a >= b {
        a - b
    } else {
        0
    }
}

impl RefineField {
    /// The number of blocks.
    pub open spec fn n(&self) -> nat {
        self.blocks@.len()
    }

    /// There is a distance for each block, and the blocks lie in the frame.
    pub open spec fn well_formed(&self) -> bool {
        &&& self.distance@.len() == self.n()
        &&& crate::blocks::all_framed(self.blocks@, self.frame)
    }

    /// The blocks with an eye band on skin that are within reach.
    pub open spec fn eyed(&self) -> Seq<bool> {
        Seq::new(
            self.n(),
            |i: int|
                self.blocks@[i].eye_band >= AT_012 && self.blocks@[i].skin_density >= AT_012
                    && self.distance@[i] <= self.reach,
        )
    }

    /// These blocks.
    pub open spec fn eye_pool(&self) -> Seq<usize> {
        crate::selection::sifted(crate::selection::every(self.n()), self.eyed())
    }

    /// The eye bands of some blocks.
    pub open spec fn eye_bands(&self, pool: Seq<usize>) -> Seq<Rank> {
        Seq::new(pool.len(), |k: int| self.blocks@[pool[k] as int].eye_band)
    }

    /// Whether the eyes near the point are worth a refinement: there are
    /// enough blocks, one has a clear eye band, and they are skin on average.
    pub open spec fn worthwhile(&self, avg_skin: Rank) -> bool {
        let pool = self.eye_pool();
        &&& pool.len() >= MIN_EYE_BLOCKS
        &&& crate::ranking::peak_of(self.eye_bands(pool)) >= AT_016
        &&& avg_skin >= AT_022
    }

    /// What some blocks span, one block wider on the left, on the right and
    /// below and half a block above, as far as the frame goes.
    pub open spec fn around(&self, pool: Seq<usize>) -> EyeRegion {
        let b = crate::blocks::bounds_of(self.blocks@, pool);
        let block = self.frame.block as int;
        let w = self.frame.w as int;
        let h = self.frame.h as int;
        EyeRegion {
            x0: crate::grid::least(less(b.left as int, block), w) as u64,
            y0: crate::grid::least(less(b.top as int, block / 2), h) as u64,
            x1: crate::grid::least(b.right + block, w) as u64,
            y1: crate::grid::least(b.bottom + block, h) as u64,
        }
    }

    /// The blocks with eyes near the point.
    pub fn near_eyes(&self) -> (r: Vec<usize>)
        requires
            self.well_formed(),
        ensures
            r@ == self.eye_pool(),
            crate::selection::all_below(r@, self.n() as int),
    {
        let mut keep: Vec<bool> = Vec::new();
        let mut i: usize = 0;
        while i < self.blocks.len()
            invariant
                self.well_formed(),
                0 <= i <= self.n(),
                keep@ == self.eyed().take(i as int),
            decreases self.n() - i,
        {
            let b = &self.blocks[i];
            let near: bool = b.eye_band >= AT_012 && b.skin_density >= AT_012 && self.distance[i]
                <= self.reach;
            keep.push(near);
            assert(near == self.eyed()[i as int]);
            i = i + 1;
            assert(keep@ == self.eyed().take(i as int));
        }
        assert(keep@ == self.eyed());
        let all = all_of(self.blocks.len());
        sift(&all, &keep)
    }

    /// The pixels to search around the eyes near the point, if they are worth
    /// it; `avg_skin` is the average skin of their blocks.
    pub fn eye_region(&self, pool: &Vec<usize>, avg_skin: Rank) -> (r: Option<EyeRegion>)
        requires
            self.well_formed(),
            pool@ == self.eye_pool(),
            crate::selection::all_below(pool@, self.n() as int),
        ensures
            r is Some <==> self.worthwhile(avg_skin),
            r matches Some(e) ==> e == self.around(pool@) && e.x0 <= e.x1 <= self.frame.w && e.y0
                <= e.y1 <= self.frame.h,
    {
        if pool.len() < MIN_EYE_BLOCKS {
            return None;
        }
        let mut bands: Vec<Rank> = Vec::new();
        let mut k: usize = 0;
        while k < pool.len()
            invariant
                crate::selection::all_below(pool@, self.n() as int),
                0 <= k <= pool@.len(),
                bands@ == self.eye_bands(pool@.take(k as int)),
            decreases pool@.len() - k,
        {
            bands.push(self.blocks[pool[k]].eye_band);
            k = k + 1;
        }
        assert(pool@.take(k as int) == pool@);
        if strongest(bands.as_slice()) < AT_016 || avg_skin < AT_022 {
            return None;
        }
        proof {
            crate::blocks::bounds_hold_the_blocks(self.blocks@, pool@, self.frame);
        }
        let block: u64 = self.frame.block as u64;
        let w: u64 = self.frame.w as u64;
        let h: u64 = self.frame.h as u64;
        let span = span_box(&self.blocks, pool);
        let right: u64 = span.right + block;
        let bottom: u64 = span.bottom + block;
        let x0: u64 = if span.left >= block {
            span.left - block
        } else {
            0
        };
        let y0: u64 = if span.top >= block / 2 {
            span.top - block / 2
        } else {
            0
        };
        Some(
            EyeRegion {
                x0: if x0 <= w {
                    x0
                } else {
                    w
                },
                y0: if y0 <= h {
                    y0
                } else {
                    h
                },
                x1: if right <= w {
                    right
                } else {
                    w
                },
                y1: if bottom <= h {
                    bottom
                } else {
                    h
                },
            },
        )
    }
}

impl EyeRegion {
    /// The number of pixels.
    pub open spec fn area(&self) -> int {
        (self.x1 - self.x0) * (self.y1 - self.y0)
    }

    /// Whether a pixel is the first of those with the best score, counted row
    /// by row.
    pub open spec fn is_best(&self, scores: Seq<Rank>, x: int, y: int) -> bool {
        let width = self.x1 - self.x0;
        let i = (y - self.y0) * width + (x - self.x0);
        &&& self.x0 <= x < self.x1
        &&& self.y0 <= y < self.y1
        &&& crate::ranking::is_first_max(scores, i)
    }

    /// The pixel with the best score, if that is good enough. The scores are
    /// those of the region's pixels, row by row.
    pub fn best_spot(&self, scores: &Vec<Rank>) -> (r: Option<(u64, u64)>)
        requires
            self.x0 <= self.x1,
            self.y0 <= self.y1,
            scores@.len() == self.area(),
        ensures
            r is None <==> forall|i: int| 0 <= i < scores@.len() ==> scores@[i] < AT_022,
            r matches Some(p) ==> self.is_best(scores@, p.0 as int, p.1 as int) && scores@[(p.1
                - self.y0) * (self.x1 - self.x0) + (p.0 - self.x0)] >= AT_022,
    {
        match first_max_above(scores.as_slice(), 0) {
            None => {
                assert forall|i: int| 0 <= i < scores@.len() implies scores@[i] < AT_022 by {
                    assert(scores@[i] <= 0);
                }
                None
            },
            Some(i) => {
                if scores[i] < AT_022 {
                    assert forall|j: int| 0 <= j < scores@.len() implies scores@[j] < AT_022 by {
                        assert(scores@[j] <= scores@[i as int]);
                    }
                    return None;
                }
                let width: u64 = self.x1 - self.x0;
                proof {
                    let n = width as int;
                    let m = self.y1 - self.y0;
                    assert(n > 0) by (nonlinear_arith)
                        requires
                            n >= 0,
                            0 <= i < n * m,
                    ;
                    vstd::arithmetic::div_mod::lemma_fundamental_div_mod(i as int, n);
                    vstd::arithmetic::div_mod::lemma_mod_bound(i as int, n);
                    let q = i as int / n;
                    assert(0 <= q < m && q * n + i as int % n == i) by (nonlinear_arith)
                        requires
                            i == n * q + i as int % n,
                            0 <= i as int % n < n,
                            0 <= i < n * m,
                            n > 0,
                    ;
                }
                let x: u64 = self.x0 + i as u64 % width;
                let y: u64 = self.y0 + i as u64 / width;
                Some((x, y))
            },
        }
    }
}

/// Whether the refined point may lie three blocks below the point instead of
/// 1.2: where the radial response marks a pupil.
pub fn may_fall_far(radial: Rank) -> (r: bool)
    ensures
        r == (radial >= AT_030),
{
    radial >= AT_030
}

/// The eyes near a point are the blocks with an eye band of 0.12 on skin of 0.12
/// within reach, and no others.
pub proof fn eyes_near_a_point_have_skin(field: RefineField, i: usize)
    requires
        i < field.n(),
    ensures
        field.eye_pool().contains(i) <==> field.blocks@[i as int].eye_band >= AT_012
            && field.blocks@[i as int].skin_density >= AT_012 && field.distance@[i as int]
            <= field.reach,
{
    let all = crate::selection::every(field.n());
    assert(all[i as int] == i);
    crate::selection::sifting_keeps_the_flagged(all, field.eyed(), i);
}

/// A refinement is worthwhile with three such blocks, one of them with an eye band
/// of 0.16, and 0.22 of skin on average, and never with less.
pub proof fn refinements_need_clear_eyes(field: RefineField, avg_skin: Rank)
    ensures
        field.eye_pool().len() <= 2 ==> !field.worthwhile(avg_skin),
        avg_skin < AT_022 ==> !field.worthwhile(avg_skin),
        (forall|k: int|
            0 <= k < field.eye_pool().len() ==> field.blocks@[#[trigger] field.eye_pool()[k] as int].eye_band
                < AT_016) ==> !field.worthwhile(avg_skin),
        field.eye_pool().len() >= 3 && avg_skin >= AT_022 && (exists|k: int|
            0 <= k < field.eye_pool().len() && field.blocks@[#[trigger] field.eye_pool()[k] as int].eye_band
                >= AT_016) ==> field.worthwhile(avg_skin),
{
    let pool = field.eye_pool();
    let bands = field.eye_bands(pool);
    crate::ranking::peaks_bound_the_list(bands);
    if crate::ranking::peak_of(bands) >= AT_016 {
        let k = choose|k: int|
            0 <= k < bands.len() && #[trigger] bands[k] == crate::ranking::peak_of(bands);
        assert(field.blocks@[pool[k] as int].eye_band >= AT_016);
    }
    if exists|k: int|
        0 <= k < pool.len() && field.blocks@[#[trigger] pool[k] as int].eye_band >= AT_016 {
        let k = choose|k: int|
            0 <= k < pool.len() && field.blocks@[#[trigger] pool[k] as int].eye_band >= AT_016;
        assert(bands[k] <= crate::ranking::peak_of(bands));
    }
}

/// The pixels that are searched reach a block beyond the eyes to the left, to the
/// right and below and half a block above, and end where the frame does; so they
/// hold every pixel of those blocks.
pub proof fn searches_reach_around_the_eyes(field: RefineField, pool: Seq<usize>, k: int)
    requires
        field.well_formed(),
        crate::selection::all_below(pool, field.n() as int),
        0 <= k < pool.len(),
    ensures
        ({
            let e = field.around(pool);
            let b = crate::blocks::bounds_of(field.blocks@, pool);
            let block = field.frame.block;
            let r = field.blocks@[pool[k] as int].rect;
            &&& b.left >= block ==> e.x0 == b.left - block
            &&& b.left <= block ==> e.x0 == 0
            &&& b.top >= block / 2 ==> e.y0 == b.top - block / 2
            &&& b.top <= block / 2 ==> e.y0 == 0
            &&& b.right + block <= field.frame.w ==> e.x1 == b.right + block
            &&& b.right + block >= field.frame.w ==> e.x1 == field.frame.w
            &&& b.bottom + block <= field.frame.h ==> e.y1 == b.bottom + block
            &&& b.bottom + block >= field.frame.h ==> e.y1 == field.frame.h
            &&& e.x0 <= r.x && r.x + r.w <= e.x1
            &&& e.y0 <= r.y && r.y + r.h <= e.y1
        }),
{
    crate::blocks::bounds_hold_the_blocks(field.blocks@, pool, field.frame);
    let r = field.blocks@[pool[k] as int].rect;
    let b = crate::blocks::bounds_of(field.blocks@, pool);
    assert(b.left <= r.x && r.x + r.w <= b.right && b.top <= r.y && r.y + r.h <= b.bottom);
}

/// The best pixel of a region lies in it, and no pixel of the region scores more.
pub proof fn the_best_spot_is_in_the_region(e: EyeRegion, scores: Seq<Rank>, x: int, y: int, i: int)
    requires
        e.is_best(scores, x, y),
        0 <= i < scores.len(),
    ensures
        e.x0 <= x < e.x1,
        e.y0 <= y < e.y1,
        scores[i] <= scores[(y - e.y0) * (e.x1 - e.x0) + (x - e.x0)],
        i < (y - e.y0) * (e.x1 - e.x0) + (x - e.x0) ==> scores[i] < scores[(y - e.y0) * (e.x1 - e.x0)
            + (x - e.x0)],
{
}

/// A refined point may fall far below the point from a radial response of 0.30 on.
pub proof fn pupils_let_the_point_fall_far(radial: Rank, r: bool)
    requires
        call_ensures(may_fall_far, (radial,), r),
    ensures
        radial >= AT_030 ==> r,
        radial < AT_030 ==> !r,
{
}

} // verus!
