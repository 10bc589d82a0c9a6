//! The decisions of the skin model: which pixels teach it, whether what was
//! learnt is kept, and which pixels are scored.

use crate::marks::{
    AT_004, AT_006, AT_024, AT_027, AT_029, AT_030, AT_032, AT_034, AT_035, AT_037, AT_038, AT_040,
    AT_041, AT_044, AT_225,
};
use crate::rank::{clamp, smaller, Rank};
use vstd::prelude::*;

verus! {

/// The number of pixels that the model learns from at least.
pub const MIN_LESSONS: usize = 200;

/// The largest of three channels.
pub open spec fn brightest(r: u8, g: u8, b: u8) -> u8 {
    if r >= g && r >= b {
        r
    } else if g >= b {
        g
    } else {
        b
    }
}

/// The smallest of three channels.
pub open spec fn darkest(r: u8, g: u8, b: u8) -> u8 {
    if r <= g && r <= b {
        r
    } else if g <= b {
        g
    } else {
        b
    }
}

/// How far the channels of a pixel are apart, and the largest of them.
pub fn chroma(r: u8, g: u8, b: u8) -> (c: (u8, u8))
    ensures
        c.0 == brightest(r, g, b) - darkest(r, g, b),
        c.1 == brightest(r, g, b),
        c.0 <= c.1,
        c.1 >= r && c.1 >= g && c.1 >= b && (c.1 == r || c.1 == g || c.1 == b),
        c.1 - c.0 <= r && c.1 - c.0 <= g && c.1 - c.0 <= b,
        c.1 - c.0 == r || c.1 - c.0 == g || c.1 - c.0 == b,
{
    let max: u8 = if r >= g && r >= b {
        r
    } else if g >= b {
        g
    } else {
        b
    };
    let min: u8 = if r <= g && r <= b {
        r
    } else if g <= b {
        g
    } else {
        b
    };
    (max - min, max)
}

/// Whether a channel is so dark that its light grows in proportion: not above
/// 0.04045 of full.
pub fn in_linear_part(c: u8) -> (r: bool)
    ensures
        r == (100_000 * c <= 4045 * 255),
{
    100_000 * (c as u32) <= 4045 * 255
}

/// Whether a pixel is bright enough and red enough to teach the model, and
/// close enough to one of the two usual skin tones; `hue` is the excess of its
/// red share over its green one.
pub fn teaches(r: u8, g: u8, b: u8, hue: Rank, d1: Rank, d2: Rank) -> (t: bool)
    ensures
        t == (r + g + b >= 30 && hue >= AT_004 && (d1 < AT_225 || d2 < AT_225)),
{
    let sum: u32 = r as u32 + g as u32 + b as u32;
    sum >= 30 && hue >= AT_004 && smaller(d1, d2) < AT_225
}

/// The number of pixels that the model needs to learn: one in a hundred.
pub open spec fn lessons(n_pixels: int) -> int {
    crate::blocks::most(MIN_LESSONS as int, n_pixels / 100)
}

/// Whether enough pixels teach the model.
pub fn can_learn(candidates: usize, n_pixels: usize) -> (r: bool)
    ensures
        r == (candidates >= lessons(n_pixels as int)),
        r == (candidates >= 200 && candidates >= n_pixels / 100),
{
    candidates >= MIN_LESSONS && candidates >= n_pixels / 100
}

/// Whether a pixel belongs to the first of two tones: it is closer to it.
pub fn joins_first(d1: Rank, d2: Rank) -> (r: bool)
    ensures
        r == (d1 < d2),
{
    d1 < d2
}

/// Whether the learnt tones are kept: the pixels scatter less around them than
/// the given bound, nine tenths of how they scatter around the usual ones.
pub fn keeps_lesson(scatter: Rank, bound: Rank) -> (r: bool)
    ensures
        r == (scatter < bound),
{
    scatter < bound
}

/// Two skin tones, each by its share of red and of green.
#[derive(Clone, Copy, PartialEq, Eq, Structural)]
pub struct SkinCenters {
    pub c1_rn: Rank,
    pub c1_gn: Rank,
    pub c2_rn: Rank,
    pub c2_gn: Rank,
}

/// Whether tones are others moved to the closest skin tones.
pub open spec fn is_tamed(c: SkinCenters, r: SkinCenters) -> bool {
    &&& r.c1_rn == crate::rank::min_rank(
        crate::rank::max_rank(c.c1_rn as int, AT_034 as int),
        AT_040 as int,
    )
    &&& r.c1_gn == crate::rank::min_rank(
        crate::rank::max_rank(c.c1_gn as int, AT_029 as int),
        AT_035 as int,
    )
    &&& r.c2_rn == crate::rank::min_rank(
        crate::rank::max_rank(c.c2_rn as int, AT_038 as int),
        AT_044 as int,
    )
    &&& r.c2_gn == crate::rank::min_rank(
        crate::rank::max_rank(c.c2_gn as int, AT_024 as int),
        AT_030 as int,
    )
}

impl SkinCenters {
    /// Whether the tones are skin tones.
    pub open spec fn plausible(&self) -> bool {
        &&& AT_034 <= self.c1_rn <= AT_040
        &&& AT_029 <= self.c1_gn <= AT_035
        &&& AT_038 <= self.c2_rn <= AT_044
        &&& AT_024 <= self.c2_gn <= AT_030
    }

    /// The learnt tones, moved to the closest ones that are skin tones.
    pub fn tamed(&self) -> (r: SkinCenters)
        ensures
            r.plausible(),
            self.plausible() ==> r == *self,
            is_tamed(*self, r),
    {
        SkinCenters {
            c1_rn: clamp(self.c1_rn, AT_034, AT_040),
            c1_gn: clamp(self.c1_gn, AT_029, AT_035),
            c2_rn: clamp(self.c2_rn, AT_038, AT_044),
            c2_gn: clamp(self.c2_gn, AT_024, AT_030),
        }
    }
}

/// What the model learnt from the pixels that teach it.
pub struct Lesson {
    pub centers: SkinCenters,
    /// How the pixels scatter around the learnt tones.
    pub scatter: Rank,
    /// Nine tenths of how they scatter around the usual ones.
    pub bound: Rank,
}

impl SkinCenters {
    /// The tones of skin in general.
    pub fn usual() -> (r: SkinCenters)
        ensures
            r == (SkinCenters { c1_rn: AT_037, c1_gn: AT_032, c2_rn: AT_041, c2_gn: AT_027 }),
            r.plausible(),
    {
        SkinCenters { c1_rn: AT_037, c1_gn: AT_032, c2_rn: AT_041, c2_gn: AT_027 }
    }

    /// The tones to score with: the learnt ones, tamed, if there was enough to
    /// learn from and the lesson is kept, else the usual ones.
    pub fn adopted(lesson: &Option<Lesson>) -> (r: SkinCenters)
        ensures
            r.plausible(),
            match *lesson {
                Some(l) if l.scatter < l.bound => is_tamed(l.centers, r),
                _ => r == (SkinCenters {
                    c1_rn: AT_037,
                    c1_gn: AT_032,
                    c2_rn: AT_041,
                    c2_gn: AT_027,
                }),
            },
    {
        match lesson {
            Some(l) => if keeps_lesson(l.scatter, l.bound) {
                l.centers.tamed()
            } else {
                SkinCenters::usual()
            },
            None => SkinCenters::usual(),
        }
    }
}

/// Whether a pixel is scored as skin: bright enough, its channels a tenth of
/// the largest apart at least, and red enough.
pub fn is_scored(r: u8, g: u8, b: u8, hue: Rank) -> (s: bool)
    ensures
        s == (r + g + b >= 15 && 10 * (brightest(r, g, b) - darkest(r, g, b)) >= brightest(r, g, b)
            && hue >= AT_004),
{
    let sum: u32 = r as u32 + g as u32 + b as u32;
    let c = chroma(r, g, b);
    sum >= 15 && 10 * (c.0 as u32) >= c.1 as u32 && hue >= AT_004
}

/// Whether a gradient is strong enough to vote for a dark centre.
pub fn votes(gradient: Rank) -> (r: bool)
    ensures
        r == (gradient >= AT_006),
{
    gradient >= AT_006
}

/// The pixel that a vote falls on, if it is in the frame.
pub fn ballot(x: i64, y: i64, w: u32, h: u32) -> (r: Option<usize>)
    requires
        w * h <= usize::MAX,
    ensures
        r is Some <==> (0 <= x < w && 0 <= y < h),
        r matches Some(i) ==> i == y * w + x && i < w * h,
{
    if x >= 0 && y >= 0 && x < w as i64 && y < h as i64 {
        proof {
            assert(0 <= y * w && y * w + x < w * h) by (nonlinear_arith)
                requires
                    0 <= x < w,
                    0 <= y < h,
            ;
        }
        Some(y as usize * w as usize + x as usize)
    } else {
        None
    }
}

/// The brightest channel is one of the three and none is brighter, the darkest one
/// of them and none is darker.
pub proof fn channels_lie_between_their_extremes(r: u8, g: u8, b: u8)
    ensures
        darkest(r, g, b) <= r <= brightest(r, g, b),
        darkest(r, g, b) <= g <= brightest(r, g, b),
        darkest(r, g, b) <= b <= brightest(r, g, b),
        brightest(r, g, b) == r || brightest(r, g, b) == g || brightest(r, g, b) == b,
        darkest(r, g, b) == r || darkest(r, g, b) == g || darkest(r, g, b) == b,
{
}

/// A lesson takes 200 pixels at least, and one in a hundred.
pub proof fn lessons_take_one_pixel_in_a_hundred(n_pixels: int)
    requires
        0 <= n_pixels,
    ensures
        lessons(n_pixels) >= 200,
        100 * lessons(n_pixels) > n_pixels - 100,
        lessons(n_pixels) == 200 || 100 * lessons(n_pixels) <= n_pixels,
{
}

/// Tones are tamed one by one: each goes to the closest share that is a skin
/// tone's, so those that are stay, and taming twice is taming once.
pub proof fn tones_are_tamed_to_the_closest(c: SkinCenters, r: SkinCenters)
    requires
        is_tamed(c, r),
    ensures
        AT_034 <= r.c1_rn <= AT_040 && AT_029 <= r.c1_gn <= AT_035 && AT_038 <= r.c2_rn <= AT_044
            && AT_024 <= r.c2_gn <= AT_030,
        c.c1_rn <= AT_034 ==> r.c1_rn == AT_034,
        AT_034 <= c.c1_rn <= AT_040 ==> r.c1_rn == c.c1_rn,
        AT_040 <= c.c1_rn ==> r.c1_rn == AT_040,
        c.c1_gn <= AT_029 ==> r.c1_gn == AT_029,
        AT_029 <= c.c1_gn <= AT_035 ==> r.c1_gn == c.c1_gn,
        AT_035 <= c.c1_gn ==> r.c1_gn == AT_035,
        c.c2_rn <= AT_038 ==> r.c2_rn == AT_038,
        AT_038 <= c.c2_rn <= AT_044 ==> r.c2_rn == c.c2_rn,
        AT_044 <= c.c2_rn ==> r.c2_rn == AT_044,
        c.c2_gn <= AT_024 ==> r.c2_gn == AT_024,
        AT_024 <= c.c2_gn <= AT_030 ==> r.c2_gn == c.c2_gn,
        AT_030 <= c.c2_gn ==> r.c2_gn == AT_030,
        is_tamed(r, r),
        r.plausible(),
{
}

/// A channel is in the linear part up to ten of 255.
pub proof fn dark_channels_are_linear(c: u8, r: bool)
    requires
        call_ensures(in_linear_part, (c,), r),
    ensures
        r <==> c <= 10,
{
}

/// A pixel teaches the model if its channels sum to 30, its red share exceeds its
/// green one by 0.04, and either tone is closer than 2.25; a brighter or a redder
/// pixel teaches no less.
pub proof fn lessons_are_bright_red_and_close(
    r: u8,
    g: u8,
    b: u8,
    hue: Rank,
    d1: Rank,
    d2: Rank,
    t: bool,
)
    requires
        call_ensures(teaches, (r, g, b, hue, d1, d2), t),
    ensures
        r + g + b < 30 ==> !t,
        hue < AT_004 ==> !t,
        d1 >= AT_225 && d2 >= AT_225 ==> !t,
        r + g + b >= 30 && hue >= AT_004 && d1 < AT_225 ==> t,
        r + g + b >= 30 && hue >= AT_004 && d2 < AT_225 ==> t,
{
}

/// A pixel is scored if its channels sum to 15, are a tenth of the largest apart,
/// and its red share exceeds its green one by 0.04.
pub proof fn grey_pixels_are_not_scored(r: u8, g: u8, b: u8, hue: Rank, s: bool)
    requires
        call_ensures(is_scored, (r, g, b, hue), s),
    ensures
        r + g + b < 15 ==> !s,
        hue < AT_004 ==> !s,
        r == g && g == b ==> !s,
        r >= g && g >= b && r + g + b >= 15 && hue >= AT_004 ==> (s <==> 10 * (r - b) >= r),
        g >= r && r >= b && r + g + b >= 15 && hue >= AT_004 ==> (s <==> 10 * (g - b) >= g),
        b >= r && r >= g && r + g + b >= 15 && hue >= AT_004 ==> (s <==> 10 * (b - g) >= b),
        r >= b && b >= g && r + g + b >= 15 && hue >= AT_004 ==> (s <==> 10 * (r - g) >= r),
        g >= b && b >= r && r + g + b >= 15 && hue >= AT_004 ==> (s <==> 10 * (g - r) >= g),
        b >= g && g >= r && r + g + b >= 15 && hue >= AT_004 ==> (s <==> 10 * (b - r) >= b),
{
}

/// What is learnt is used only if there was a lesson and its pixels scatter less
/// than the bound; a pixel belongs to the tone that it is closer to, the second in
/// doubt; gradients vote from 0.06 on.
pub proof fn lessons_are_kept_if_they_fit_better(
    l: Lesson,
    kept: SkinCenters,
    none: SkinCenters,
    d1: Rank,
    d2: Rank,
    first: bool,
    gradient: Rank,
    vote: bool,
)
    requires
        call_ensures(SkinCenters::adopted, (&Some(l),), kept),
        call_ensures(SkinCenters::adopted, (&None::<Lesson>,), none),
        call_ensures(joins_first, (d1, d2), first),
        call_ensures(votes, (gradient,), vote),
    ensures
        none == (SkinCenters { c1_rn: AT_037, c1_gn: AT_032, c2_rn: AT_041, c2_gn: AT_027 }),
        l.scatter >= l.bound ==> kept == none,
        l.scatter < l.bound && AT_034 <= l.centers.c1_rn <= AT_040 ==> kept.c1_rn == l.centers.c1_rn,
        l.scatter < l.bound && AT_029 <= l.centers.c1_gn <= AT_035 ==> kept.c1_gn == l.centers.c1_gn,
        l.scatter < l.bound && AT_038 <= l.centers.c2_rn <= AT_044 ==> kept.c2_rn == l.centers.c2_rn,
        l.scatter < l.bound && AT_024 <= l.centers.c2_gn <= AT_030 ==> kept.c2_gn == l.centers.c2_gn,
        d1 < d2 ==> first,
        d1 >= d2 ==> !first,
        vote <==> gradient >= AT_006,
{
}

/// Enough pixels teach the model with 200 and one in a hundred, whatever their
/// number beyond that.
pub proof fn more_pixels_teach_no_less(few: usize, many: usize, n_pixels: usize, a: bool, b: bool)
    requires
        few <= many,
        call_ensures(can_learn, (few, n_pixels), a),
        call_ensures(can_learn, (many, n_pixels), b),
    ensures
        a ==> b,
        few < 200 ==> !a,
        100 * few + 99 < n_pixels ==> !a,
        few >= 200 && 100 * few >= n_pixels ==> a,
{
}

/// A vote falls on the pixel in its row and column, and on none outside the frame.
pub proof fn votes_fall_in_the_frame(x: i64, y: i64, w: u32, h: u32, r: Option<usize>)
    requires
        call_ensures(ballot, (x, y, w, h), r),
    ensures
        x < 0 || y < 0 || x >= w || y >= h ==> r is None,
        0 <= x < w && 0 <= y < h ==> r is Some && r->0 == y * w + x,
{
}

/// A lesson is kept exactly if it scatters less than its bound.
pub proof fn only_tighter_lessons_are_kept(scatter: Rank, bound: Rank, r: bool)
    requires
        call_ensures(keeps_lesson, (scatter, bound), r),
    ensures
        scatter < bound ==> r,
        scatter >= bound ==> !r,
{
}

} // verus!
