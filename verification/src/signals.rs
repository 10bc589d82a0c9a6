//! What the pixels of a block amount to: counts, peaks and the gates on them.

use crate::blocks::BlockMeta;
use crate::grid::Block;
use crate::marks::{AT_005, AT_010, AT_042, AT_055, AT_065, AT_078, AT_080, AT_250};
use crate::rank::Rank;
use vstd::prelude::*;

verus! {

/// The values of a map at some places.
pub open spec fn at(map: Seq<Rank>, places: Seq<usize>) -> Seq<Rank> {
    Seq::new(places.len(), |k: int| map[places[k] as int])
}

/// The places whose value is above a floor.
pub open spec fn risen(map: Seq<Rank>, floor: int) -> Seq<bool> {
    Seq::new(map.len(), |i: int| map[i] > floor)
}

/// The places where a map is above a floor, in order.
pub fn above(places: &Vec<usize>, map: &Vec<Rank>, floor: Rank) -> (r: Vec<usize>)
    requires
        crate::selection::all_below(places@, map@.len() as int),
    ensures
        r@ == crate::selection::sifted(places@, risen(map@, floor as int)),
        crate::selection::all_below(r@, map@.len() as int),
{
    let mut r: Vec<usize> = Vec::new();
    let mut k: usize = 0;
    while k < places.len()
        invariant
            0 <= k <= places@.len(),
            crate::selection::all_below(places@, map@.len() as int),
            r@ == crate::selection::sifted(places@.take(k as int), risen(map@, floor as int)),
            crate::selection::all_below(r@, map@.len() as int),
        decreases places@.len() - k,
    {
        assert(places@.take(k + 1).drop_last() == places@.take(k as int));
        if map[places[k]] > floor {
            r.push(places[k]);
        }
        k = k + 1;
    }
    assert(places@.take(k as int) == places@);
    r
}

/// The number of values above a mark.
pub open spec fn over(v: Seq<Rank>, mark: int) -> nat
    decreases v.len(),
{
    if v.len() == 0 {
        0
    } else {
        over(v.drop_last(), mark) + if v.last() > mark {
            1nat
        } else {
            0nat
        }
    }
}

/// The number of values below a mark.
pub open spec fn under(v: Seq<Rank>, mark: int) -> nat
    decreases v.len(),
{
    if v.len() == 0 {
        0
    } else {
        under(v.drop_last(), mark) + if v.last() < mark {
            1nat
        } else {
            0nat
        }
    }
}

fn count_over(places: &Vec<usize>, map: &Vec<Rank>, mark: Rank) -> (r: usize)
    requires
        crate::selection::all_below(places@, map@.len() as int),
    ensures
        r == over(at(map@, places@), mark as int),
        r <= places@.len(),
{
    let mut n: usize = 0;
    let mut k: usize = 0;
    while k < places.len()
        invariant
            0 <= k <= places@.len(),
            crate::selection::all_below(places@, map@.len() as int),
            n == over(at(map@, places@).take(k as int), mark as int),
            n <= k,
        decreases places@.len() - k,
    {
        assert(at(map@, places@).take(k + 1).drop_last() == at(map@, places@).take(k as int));
        if map[places[k]] > mark {
            n = n + 1;
        }
        k = k + 1;
    }
    assert(at(map@, places@).take(k as int) == at(map@, places@));
    n
}

fn count_under(places: &Vec<usize>, map: &Vec<Rank>, mark: Rank) -> (r: usize)
    requires
        crate::selection::all_below(places@, map@.len() as int),
    ensures
        r == under(at(map@, places@), mark as int),
        r <= places@.len(),
{
    let mut n: usize = 0;
    let mut k: usize = 0;
    while k < places.len()
        invariant
            0 <= k <= places@.len(),
            crate::selection::all_below(places@, map@.len() as int),
            n == under(at(map@, places@).take(k as int), mark as int),
            n <= k,
        decreases places@.len() - k,
    {
        assert(at(map@, places@).take(k + 1).drop_last() == at(map@, places@).take(k as int));
        if map[places[k]] < mark {
            n = n + 1;
        }
        k = k + 1;
    }
    assert(at(map@, places@).take(k as int) == at(map@, places@));
    n
}

/// The strongest value of a map at some places, zero at least.
pub fn block_radial_peak(places: &Vec<usize>, map: &Vec<Rank>) -> (r: Rank)
    requires
        crate::selection::all_below(places@, map@.len() as int),
    ensures
        r == crate::ranking::peak_of(at(map@, places@)),
{
    let mut best: Rank = 0;
    let mut k: usize = 0;
    while k < places.len()
        invariant
            0 <= k <= places@.len(),
            crate::selection::all_below(places@, map@.len() as int),
            best == crate::ranking::peak_of(at(map@, places@).take(k as int)),
        decreases places@.len() - k,
    {
        assert(at(map@, places@).take(k + 1).drop_last() == at(map@, places@).take(k as int));
        if map[places[k]] > best {
            best = map[places[k]];
        }
        k = k + 1;
    }
    assert(at(map@, places@).take(k as int) == at(map@, places@));
    best
}

/// What is counted in a block for its eye band.
#[derive(Clone, Copy, PartialEq, Eq, Structural)]
pub struct EyeTally {
    pub pixels: usize,
    /// Pixels of skin.
    pub skin: usize,
    /// Dark pixels.
    pub dark: usize,
    /// Bright pixels.
    pub bright: usize,
}

/// Counts the pixels of a block for its eye band.
pub fn eye_tally(places: &Vec<usize>, skin: &Vec<Rank>, lum: &Vec<Rank>) -> (r: EyeTally)
    requires
        crate::selection::all_below(places@, skin@.len() as int),
        crate::selection::all_below(places@, lum@.len() as int),
    ensures
        r.pixels == places@.len(),
        r.skin == over(at(skin@, places@), AT_005 as int),
        r.dark == under(at(lum@, places@), AT_042 as int),
        r.bright == over(at(lum@, places@), AT_078 as int),
        r.skin <= r.pixels && r.dark <= r.pixels && r.bright <= r.pixels,
{
    EyeTally {
        pixels: places.len(),
        skin: count_over(places, skin, AT_005),
        dark: count_under(places, lum, AT_042),
        bright: count_over(places, lum, AT_078),
    }
}

/// Counts the pixels of the upper part of a block for its face boost; skin does
/// not count there.
pub fn face_tally(places: &Vec<usize>, lum: &Vec<Rank>) -> (r: EyeTally)
    requires
        crate::selection::all_below(places@, lum@.len() as int),
    ensures
        r.pixels == places@.len(),
        r.skin == 0,
        r.dark == under(at(lum@, places@), AT_042 as int),
        r.bright == over(at(lum@, places@), AT_080 as int),
{
    EyeTally {
        pixels: places.len(),
        skin: 0,
        dark: count_under(places, lum, AT_042),
        bright: count_over(places, lum, AT_080),
    }
}

impl EyeTally {
    /// Whether a block can have an eye band: its gradients are level and clear
    /// on average, and 8% of it is skin unless skin does not matter.
    pub fn has_eye_band(&self, avg_h: Rank, avg_m: Rank, allow_no_skin: bool) -> (r: bool)
        ensures
            r == (avg_h >= AT_055 && avg_m >= AT_005 && (allow_no_skin || 25 * self.skin >= 2
                * self.pixels)),
    {
        avg_h >= AT_055 && avg_m >= AT_005 && (allow_no_skin || 25 * (self.skin as u128) >= 2 * (
        self.pixels as u128))
    }

    /// Whether a block is all highlight for an eye band: more than 30% bright
    /// and less than 14% dark.
    pub fn eye_glare(&self) -> (r: bool)
        ensures
            r == (10 * self.bright > 3 * self.pixels && 50 * self.dark < 7 * self.pixels),
    {
        10 * (self.bright as u128) > 3 * (self.pixels as u128) && 50 * (self.dark as u128) < 7 * (
        self.pixels as u128)
    }

    /// Whether a block is all highlight for a face: more than 28% bright and
    /// less than 15% dark.
    pub fn face_glare(&self) -> (r: bool)
        ensures
            r == (25 * self.bright > 7 * self.pixels && 20 * self.dark < 3 * self.pixels),
    {
        25 * (self.bright as u128) > 7 * (self.pixels as u128) && 20 * (self.dark as u128) < 3 * (
        self.pixels as u128)
    }
}

/// Whether two sides mirror each other well enough for the likeness to count in
/// full.
pub fn mirrors_well(likeness: Rank) -> (r: bool)
    ensures
        r == (likeness > AT_065),
{
    likeness > AT_065
}

/// Which signals of a block count in its score.
#[derive(Clone, Copy, PartialEq, Eq, Structural)]
pub struct Counted {
    /// Skin, saturation and radial symmetry.
    pub colour: bool,
    /// Eye band and face boost.
    pub face: bool,
}

/// Which signals of a block count: background has none, and structure has no
/// face.
pub fn counted(is_bg: bool, is_geom: bool) -> (r: Counted)
    ensures
        r.colour == !is_bg,
        r.face == (!is_bg && !is_geom),
{
    Counted { colour: !is_bg, face: !is_bg && !is_geom }
}

/// A block with its measurements, zero where they do not count.
pub open spec fn meta_of(
    rect: Block,
    is_bg: bool,
    is_geom: bool,
    skin: Rank,
    eye: Rank,
    face: Rank,
    radial: Rank,
) -> BlockMeta {
    BlockMeta {
        rect,
        eye_band: if is_bg || is_geom {
            0
        } else {
            eye
        },
        skin_density: if is_bg {
            0
        } else {
            skin
        },
        face_boost: if is_bg || is_geom {
            0
        } else {
            face
        },
        radial: if is_bg {
            0
        } else {
            radial
        },
        bg_suppressed: is_bg,
    }
}

/// A block with its measurements, zero where they do not count.
pub fn block_meta(
    rect: Block,
    is_bg: bool,
    is_geom: bool,
    skin: Rank,
    eye: Rank,
    face: Rank,
    radial: Rank,
) -> (r: BlockMeta)
    ensures
        r == meta_of(rect, is_bg, is_geom, skin, eye, face, radial),
        r.rect == rect,
        r.bg_suppressed == is_bg,
        is_bg ==> r.skin_density == 0 && r.radial == 0 && r.eye_band == 0 && r.face_boost == 0,
        !is_bg ==> r.skin_density == skin && r.radial == radial,
        !is_bg && is_geom ==> r.eye_band == 0 && r.face_boost == 0,
        !is_bg && !is_geom ==> r.eye_band == eye && r.face_boost == face,
{
    let c = counted(is_bg, is_geom);
    BlockMeta {
        rect,
        eye_band: if c.face {
            eye
        } else {
            0
        },
        skin_density: if c.colour {
            skin
        } else {
            0
        },
        face_boost: if c.face {
            face
        } else {
            0
        },
        radial: if c.colour {
            radial
        } else {
            0
        },
        bg_suppressed: is_bg,
    }
}

/// Background and structure never show a pupil, nor pass for a face.
pub proof fn the_background_has_no_face(
    rect: Block,
    is_bg: bool,
    is_geom: bool,
    skin: Rank,
    eye: Rank,
    face: Rank,
    radial: Rank,
)
    requires
        is_bg || is_geom,
    ensures
        !crate::blocks::shows_pupil(meta_of(rect, is_bg, is_geom, skin, eye, face, radial)),
        !crate::classify::face_like(meta_of(rect, is_bg, is_geom, skin, eye, face, radial)),
{
}

/// Whether a block is measured for mirror symmetry.
pub fn wants_symmetry(mono: bool, skin_density: Rank) -> (r: bool)
    ensures
        r == (mono || skin_density > AT_010),
{
    mono || skin_density > AT_010
}

/// The blocks whose score is close enough to the best to count: no more than
/// 2.5 below it.
pub open spec fn close(gap: Seq<Rank>) -> Seq<bool> {
    Seq::new(gap.len(), |i: int| gap[i] >= -AT_250)
}

/// The blocks whose score counts for the first point; `gap` is what each score
/// is above the best one.
pub fn contenders(gap: &Vec<Rank>) -> (r: Vec<usize>)
    ensures
        r@ == crate::selection::sifted(crate::selection::every(gap@.len()), close(gap@)),
        crate::selection::all_below(r@, gap@.len() as int),
        forall|i: usize| i < gap@.len() ==> (#[trigger] r@.contains(i) <==> gap@[i as int] >= -AT_250),
{
    proof {
        assert(gap.len() <= usize::MAX);
        assert forall|i: usize| i < gap@.len() implies (#[trigger] crate::selection::sifted(
            crate::selection::every(gap@.len()),
            close(gap@),
        ).contains(i) <==> gap@[i as int] >= -AT_250) by {
            close_blocks_contend(gap@, i);
        }
    }
    let mut keep: Vec<bool> = Vec::new();
    let mut i: usize = 0;
    while i < gap.len()
        invariant
            0 <= i <= gap@.len(),
            keep@ == close(gap@).take(i as int),
        decreases gap@.len() - i,
    {
        let near: bool = gap[i] >= -AT_250;
        keep.push(near);
        assert(near == close(gap@)[i as int]);
        i = i + 1;
        assert(keep@ == close(gap@).take(i as int));
    }
    assert(keep@ == close(gap@));
    let all = crate::selection::all_of(gap.len());
    crate::selection::sift(&all, &keep)
}

/// The best block always counts for the first point, so the point is never left
/// undefined.
pub proof fn the_best_block_contends(gap: Seq<Rank>, best: usize)
    requires
        best < gap.len(),
        gap[best as int] == 0,
    ensures
        crate::selection::sifted(crate::selection::every(gap.len()), close(gap)).contains(best),
{
    let all = crate::selection::every(gap.len());
    assert(all[best as int] == best);
    crate::selection::sifting_keeps_the_flagged(all, close(gap), best);
}

/// Values are counted one by one: one above the mark adds to those over it, one
/// below to those under it, and one at the mark to neither.
pub proof fn values_are_counted_one_by_one(v: Seq<Rank>, x: Rank, mark: int)
    ensures
        over(Seq::empty(), mark) == 0,
        under(Seq::empty(), mark) == 0,
        x > mark ==> over(v.push(x), mark) == over(v, mark) + 1 && under(v.push(x), mark) == under(
            v,
            mark,
        ),
        x < mark ==> under(v.push(x), mark) == under(v, mark) + 1 && over(v.push(x), mark) == over(
            v,
            mark,
        ),
        x == mark ==> over(v.push(x), mark) == over(v, mark) && under(v.push(x), mark) == under(
            v,
            mark,
        ),
{
    assert(v.push(x).drop_last() == v);
}

/// The places above a floor are those of the list whose value is.
pub proof fn places_rise_above_the_floor(places: Seq<usize>, map: Seq<Rank>, floor: int, x: usize)
    requires
        x < map.len(),
    ensures
        crate::selection::sifted(places, risen(map, floor)).contains(x) <==> places.contains(x)
            && map[x as int] > floor,
{
    crate::selection::sifting_keeps_the_flagged(places, risen(map, floor), x);
}

/// A map is read place by place.
pub proof fn maps_are_read_place_by_place(map: Seq<Rank>, places: Seq<usize>, k: int)
    requires
        0 <= k < places.len(),
    ensures
        at(map, places).len() == places.len(),
        at(map, places)[k] == map[places[k] as int],
{
}

/// A block keeps what was measured on it unless it is background, which keeps
/// nothing, or structure, which keeps no eyes and no face.
pub proof fn blocks_keep_what_counts(
    rect: Block,
    is_geom: bool,
    skin: Rank,
    eye: Rank,
    face: Rank,
    radial: Rank,
)
    ensures
        meta_of(rect, false, false, skin, eye, face, radial) == (BlockMeta {
            rect,
            eye_band: eye,
            skin_density: skin,
            face_boost: face,
            radial,
            bg_suppressed: false,
        }),
        meta_of(rect, false, true, skin, eye, face, radial) == (BlockMeta {
            rect,
            eye_band: 0,
            skin_density: skin,
            face_boost: 0,
            radial,
            bg_suppressed: false,
        }),
        meta_of(rect, true, is_geom, skin, eye, face, radial) == (BlockMeta {
            rect,
            eye_band: 0,
            skin_density: 0,
            face_boost: 0,
            radial: 0,
            bg_suppressed: true,
        }),
{
}

/// A block counts for the first point if its score is no more than 2.5 below the
/// best, and not otherwise.
pub proof fn close_blocks_contend(gap: Seq<Rank>, i: usize)
    requires
        i < gap.len(),
    ensures
        crate::selection::sifted(crate::selection::every(gap.len()), close(gap)).contains(i)
            <==> gap[i as int] >= -AT_250,
{
    let all = crate::selection::every(gap.len());
    assert(all[i as int] == i);
    crate::selection::sifting_keeps_the_flagged(all, close(gap), i);
}

/// Glare is told by shares of the block: for an eye band more than 30% bright and
/// less than 14% dark, for a face more than 28% bright and less than 15% dark. More
/// bright pixels never end it, nor do fewer dark ones.
pub proof fn glare_is_bright_and_not_dark(t: EyeTally, eye: bool, face: bool)
    requires
        call_ensures(EyeTally::eye_glare, (&t,), eye),
        call_ensures(EyeTally::face_glare, (&t,), face),
    ensures
        100 * t.bright <= 30 * t.pixels ==> !eye,
        100 * t.dark >= 14 * t.pixels ==> !eye,
        100 * t.bright > 30 * t.pixels && 100 * t.dark < 14 * t.pixels ==> eye,
        100 * t.bright <= 28 * t.pixels ==> !face,
        100 * t.dark >= 15 * t.pixels ==> !face,
        100 * t.bright > 28 * t.pixels && 100 * t.dark < 15 * t.pixels ==> face,
{
}

/// A block can have an eye band with level gradients of 0.55 and clear ones of 0.05
/// on average, where 8% of it is skin or skin does not matter.
pub proof fn eye_bands_need_skin(t: EyeTally, avg_h: Rank, avg_m: Rank, strict: bool, free: bool)
    requires
        call_ensures(EyeTally::has_eye_band, (&t, avg_h, avg_m, false), strict),
        call_ensures(EyeTally::has_eye_band, (&t, avg_h, avg_m, true), free),
    ensures
        avg_h < AT_055 ==> !strict && !free,
        avg_m < AT_005 ==> !strict && !free,
        avg_h >= AT_055 && avg_m >= AT_005 ==> free,
        avg_h >= AT_055 && avg_m >= AT_005 ==> (strict <==> 100 * t.skin >= 8 * t.pixels),
        strict ==> free,
{
}

/// Background has no signal and structure no face; everything else has both.
pub proof fn structure_counts_without_a_face(is_bg: bool, is_geom: bool, r: Counted)
    requires
        call_ensures(counted, (is_bg, is_geom), r),
    ensures
        is_bg ==> !r.colour && !r.face,
        !is_bg && is_geom ==> r.colour && !r.face,
        !is_bg && !is_geom ==> r.colour && r.face,
{
}

/// Likeness counts in full above 0.65; symmetry is measured without colour, and on
/// skin of more than 0.10.
pub proof fn symmetry_counts_above_its_marks(
    likeness: Rank,
    skin: Rank,
    full: bool,
    mono: bool,
    colour: bool,
)
    requires
        call_ensures(mirrors_well, (likeness,), full),
        call_ensures(wants_symmetry, (true, skin), mono),
        call_ensures(wants_symmetry, (false, skin), colour),
    ensures
        full <==> likeness > AT_065,
        mono,
        colour <==> skin > AT_010,
{
}

/// Pixels are tallied by their marks: skin above 0.05, dark ones below 0.42, and
/// bright ones above 0.78 for an eye band and above 0.80 for a face.
pub proof fn pixels_are_tallied_by_their_marks(
    places: Vec<usize>,
    skin: Vec<Rank>,
    lum: Vec<Rank>,
    eye: EyeTally,
    face: EyeTally,
)
    requires
        call_ensures(eye_tally, (&places, &skin, &lum), eye),
        call_ensures(face_tally, (&places, &lum), face),
    ensures
        eye.pixels == places@.len() && face.pixels == places@.len(),
        eye.skin == over(at(skin@, places@), AT_005 as int),
        face.skin == 0,
        eye.dark == under(at(lum@, places@), AT_042 as int),
        face.dark == eye.dark,
        eye.bright == over(at(lum@, places@), AT_078 as int),
        face.bright == over(at(lum@, places@), AT_080 as int),
{
}

} // verus!
