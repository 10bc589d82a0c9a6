//! The search for faces strip by strip: the frame is cut into level strips,
//! and the one with the strongest eye band is where a face is likeliest.

use crate::grid::{Block, Frame};
use crate::marks::{AT_005, AT_010, AT_015, AT_040};
use crate::rank::Rank;
use crate::ranking::{last_max, strongest};
use crate::selection::{all_of, highest, lowest, sift};
use vstd::prelude::*;

verus! {

/// One scored block as the strip search reads it.
#[derive(Clone, Copy)]
pub struct Candidate {
    pub rect: Block,
    pub eye_band: Rank,
    pub skin_density: Rank,
    /// The eye band weakened towards the bottom of the frame.
    pub effective: Rank,
    /// Twice the effective eye band.
    pub doubled: Rank,
    /// 1.4 times the effective eye band.
    pub lifted: Rank,
}

/// What is compared between blocks.
#[derive(Clone, Copy, PartialEq, Eq, Structural)]
pub enum Measure {
    Effective,
    Lifted,
    Skin,
}

impl Candidate {
    /// One measurement of a block.
    pub open spec fn value_of(&self, m: Measure) -> Rank {
        match m {
            Measure::Effective => self.effective,
            Measure::Lifted => self.lifted,
            Measure::Skin => self.skin_density,
        }
    }
}

/// Where the strip search leads.
pub struct StripChoice {
    /// The strip with the strongest eye band.
    pub strip: usize,
    /// The blocks in it that have half of that strength at least.
    pub members: Vec<usize>,
    /// How much of the point stays: little for a head at the top of a tall
    /// frame.
    pub alpha: Rank,
}

/// The scored blocks of a frame.
pub struct StripField {
    pub frame: Frame,
    pub candidates: Vec<Candidate>,
}

impl StripField {
    /// The number of blocks.
    pub open spec fn n(&self) -> nat {
        self.candidates@.len()
    }

    /// The frame has rows.
    pub open spec fn well_formed(&self) -> bool {
        self.frame.h > 0
    }

    /// The blocks of a strip.
    pub open spec fn in_strip(&self, s: int) -> Seq<bool> {
        Seq::new(self.n(), |i: int| self.frame.strip(self.candidates@[i].rect.cy2()) == s)
    }

    /// The blocks of a strip.
    pub open spec fn strip_pool(&self, s: int) -> Seq<usize> {
        crate::selection::sifted(crate::selection::every(self.n()), self.in_strip(s))
    }

    /// One measurement of each of some blocks.
    pub open spec fn measured(&self, pool: Seq<usize>, m: Measure) -> Seq<Rank> {
        Seq::new(pool.len(), |k: int| self.candidates@[pool[k] as int].value_of(m))
    }

    /// The blocks with an eye band on skin.
    pub open spec fn face_like(&self) -> Seq<bool> {
        Seq::new(
            self.n(),
            |i: int|
                self.candidates@[i].eye_band >= AT_010 && self.candidates@[i].skin_density
                    >= AT_010,
        )
    }

    /// The blocks with an eye band on skin.
    pub open spec fn face_pool(&self) -> Seq<usize> {
        crate::selection::sifted(crate::selection::every(self.n()), self.face_like())
    }

    /// Twice the rows of the centres of some blocks.
    pub open spec fn rows2(&self, pool: Seq<usize>) -> Seq<u64> {
        Seq::new(pool.len(), |k: int| self.candidates@[pool[k] as int].rect.cy2() as u64)
    }

    /// Whether all face-like blocks are close to the top: they span less than a
    /// fifth of the frame's height, and the first is within 15% of the top.
    pub open spec fn head_on_top(&self) -> bool {
        let rows = self.rows2(self.face_pool());
        let top = crate::selection::min_of(rows);
        let bottom = crate::selection::max_of(rows);
        rows.len() > 0 && 5 * (bottom - top) < 2 * self.frame.h && 10 * top < 3 * self.frame.h
    }

    /// Whether the frame shows a whole figure with its head at the top: it is
    /// tall, and the uppermost strip has skin.
    pub open spec fn whole_figure(&self) -> bool {
        &&& self.frame.tall()
        &&& self.head_on_top()
        &&& crate::ranking::peak_of(self.measured(self.strip_pool(0), Measure::Skin)) >= AT_015
    }

    /// The strength of a strip: its strongest effective eye band, lifted in the
    /// uppermost strip of a whole figure.
    pub open spec fn strength(&self, s: int) -> int {
        if s == 0 && self.whole_figure() {
            crate::ranking::peak_of(self.measured(self.strip_pool(s), Measure::Lifted))
        } else {
            crate::ranking::peak_of(self.measured(self.strip_pool(s), Measure::Effective))
        }
    }

    /// The strengths of the strips, from the top.
    pub open spec fn strengths(&self) -> Seq<Rank> {
        Seq::new(crate::grid::STRIPS as nat, |s: int| self.strength(s) as Rank)
    }

    /// The blocks centred in a strip that have half of its strength at least.
    pub open spec fn strong_in(&self, s: int) -> Seq<bool> {
        Seq::new(
            self.n(),
            |i: int|
                {
                    let c = self.candidates@[i];
                    &&& 4 * c.rect.cy2() >= s * self.frame.h
                    &&& 4 * c.rect.cy2() < (s + 1) * self.frame.h
                    &&& c.doubled >= self.strength(s)
                },
        )
    }

    /// Whether a choice is where the search leads.
    pub open spec fn leads_to(&self, r: StripChoice) -> bool {
        &&& crate::ranking::is_last_max(self.strengths(), r.strip as int)
        &&& self.strength(r.strip as int) >= AT_005
        &&& r.members@ == crate::selection::sifted(
            crate::selection::every(self.n()),
            self.strong_in(r.strip as int),
        )
        &&& r.alpha == if r.strip == 0 && self.whole_figure() {
            AT_015
        } else {
            AT_040
        }
    }

    fn strip_blocks(&self, s: u32) -> (r: Vec<usize>)
        requires
            self.well_formed(),
        ensures
            r@ == self.strip_pool(s as int),
            crate::selection::all_below(r@, self.n() as int),
    {
        let mut keep: Vec<bool> = Vec::new();
        let mut i: usize = 0;
        while i < self.candidates.len()
            invariant
                self.well_formed(),
                0 <= i <= self.n(),
                keep@ == self.in_strip(s as int).take(i as int),
            decreases self.n() - i,
        {
            let in_it: bool = self.frame.strip_of(&self.candidates[i].rect) == s as usize;
            keep.push(in_it);
            assert(in_it == self.in_strip(s as int)[i as int]);
            i = i + 1;
            assert(keep@ == self.in_strip(s as int).take(i as int));
        }
        assert(keep@ == self.in_strip(s as int));
        let all = all_of(self.candidates.len());
        sift(&all, &keep)
    }

    fn face_blocks(&self) -> (r: Vec<usize>)
        ensures
            r@ == self.face_pool(),
            crate::selection::all_below(r@, self.n() as int),
    {
        let mut keep: Vec<bool> = Vec::new();
        let mut i: usize = 0;
        while i < self.candidates.len()
            invariant
                0 <= i <= self.n(),
                keep@ == self.face_like().take(i as int),
            decreases self.n() - i,
        {
            let c = &self.candidates[i];
            let is_face: bool = c.eye_band >= AT_010 && c.skin_density >= AT_010;
            keep.push(is_face);
            assert(is_face == self.face_like()[i as int]);
            i = i + 1;
            assert(keep@ == self.face_like().take(i as int));
        }
        assert(keep@ == self.face_like());
        let all = all_of(self.candidates.len());
        sift(&all, &keep)
    }

    fn is_head_on_top(&self) -> (r: bool)
        ensures
            r == self.head_on_top(),
    {
        let pool = self.face_blocks();
        let mut rows: Vec<u64> = Vec::new();
        let mut k: usize = 0;
        while k < pool.len()
            invariant
                crate::selection::all_below(pool@, self.n() as int),
                0 <= k <= pool@.len(),
                rows@ == self.rows2(pool@.take(k as int)),
            decreases pool@.len() - k,
        {
            rows.push(self.candidates[pool[k]].rect.centre_y2());
            k = k + 1;
        }
        assert(pool@.take(k as int) == pool@);
        if rows.len() == 0 {
            return false;
        }
        proof {
            crate::selection::extremes_bound_the_list(rows@);
        }
        let top: u64 = lowest(&rows);
        let bottom: u64 = highest(&rows);
        5 * ((bottom - top) as u128) < 2 * (self.frame.h as u128) && 10 * (top as u128) < 3 * (
        self.frame.h as u128)
    }

    fn peak_in(&self, pool: &Vec<usize>, m: Measure) -> (r: Rank)
        requires
            crate::selection::all_below(pool@, self.n() as int),
        ensures
            r == crate::ranking::peak_of(self.measured(pool@, m)),
    {
        let mut v: Vec<Rank> = Vec::new();
        let mut k: usize = 0;
        while k < pool.len()
            invariant
                crate::selection::all_below(pool@, self.n() as int),
                0 <= k <= pool@.len(),
                v@ == self.measured(pool@.take(k as int), m),
            decreases pool@.len() - k,
        {
            let c = &self.candidates[pool[k]];
            let value: Rank = match m {
                Measure::Effective => c.effective,
                Measure::Lifted => c.lifted,
                Measure::Skin => c.skin_density,
            };
            v.push(value);
            k = k + 1;
        }
        assert(pool@.take(k as int) == pool@);
        strongest(v.as_slice())
    }

    /// Searches the strips; nothing comes of it where no eye band is strong
    /// enough.
    pub fn search(&self) -> (r: Option<StripChoice>)
        requires
            self.well_formed(),
        ensures
            r is None <==> forall|s: int| 0 <= s < crate::grid::STRIPS ==> self.strength(s) < AT_005,
            r matches Some(c) ==> self.leads_to(c) && crate::selection::all_below(
                c.members@,
                self.n() as int,
            ),
    {
        let top_blocks = self.strip_blocks(0);
        let figure: bool = self.frame.is_tall() && self.is_head_on_top() && self.peak_in(
            &top_blocks,
            Measure::Skin,
        ) >= AT_015;
        let mut strengths: Vec<Rank> = Vec::new();
        let mut s: u32 = 0;
        while s < 8
            invariant
                self.well_formed(),
                figure == self.whole_figure(),
                0 <= s <= 8,
                strengths@.len() == s,
                forall|t: int|
                    0 <= t < s ==> #[trigger] strengths@[t] == self.strength(t) && self.strength(t)
                        == self.strengths()[t],
            decreases 8 - s,
        {
            let pool = self.strip_blocks(s);
            let strength: Rank = if s == 0 && figure {
                self.peak_in(&pool, Measure::Lifted)
            } else {
                self.peak_in(&pool, Measure::Effective)
            };
            strengths.push(strength);
            assert(self.strengths()[s as int] == self.strength(s as int) as Rank);
            s = s + 1;
        }
        assert(strengths@ == self.strengths());
        match last_max(strengths.as_slice()) {
            None => None,
            Some(strip) => {
                let strength: Rank = strengths[strip];
                if strength < AT_005 {
                    assert forall|t: int| 0 <= t < crate::grid::STRIPS implies self.strength(t)
                        < AT_005 by {
                        assert(strengths@[t] <= strengths@[strip as int]);
                    }
                    return None;
                }
                let members = self.strong_members(strip, strength);
                let alpha: Rank = if strip == 0 && figure {
                    AT_015
                } else {
                    AT_040
                };
                assert(!(self.strength(strip as int) < AT_005));
                Some(StripChoice { strip, members, alpha })
            },
        }
    }

    fn strong_members(&self, strip: usize, strength: Rank) -> (r: Vec<usize>)
        requires
            strip < 8,
            strength == self.strength(strip as int),
        ensures
            r@ == crate::selection::sifted(
                crate::selection::every(self.n()),
                self.strong_in(strip as int),
            ),
            crate::selection::all_below(r@, self.n() as int),
    {
        let h: u64 = self.frame.h as u64;
        proof {
            assert(0 <= strip * h <= 8 * h && 0 <= (strip + 1) * h <= 8 * h) by (nonlinear_arith)
                requires
                    0 <= strip < 8,
                    0 <= h,
            ;
        }
        let from: u64 = strip as u64 * h;
        let to: u64 = (strip as u64 + 1) * h;
        let mut keep: Vec<bool> = Vec::new();
        let mut i: usize = 0;
        while i < self.candidates.len()
            invariant
                0 <= i <= self.n(),
                strength == self.strength(strip as int),
                from == strip * self.frame.h,
                to == (strip + 1) * self.frame.h,
                keep@ == self.strong_in(strip as int).take(i as int),
            decreases self.n() - i,
        {
            let c = &self.candidates[i];
            let row4: u64 = 4 * c.rect.centre_y2();
            let is_in: bool = row4 >= from && row4 < to && c.doubled >= strength;
            keep.push(is_in);
            assert(is_in == self.strong_in(strip as int)[i as int]);
            i = i + 1;
            assert(keep@ == self.strong_in(strip as int).take(i as int));
        }
        assert(keep@ == self.strong_in(strip as int));
        let all = all_of(self.candidates.len());
        sift(&all, &keep)
    }
}

proof fn lemma_peak_is_met(v: Seq<Rank>)
    requires
        crate::ranking::peak_of(v) > 0,
    ensures
        exists|k: int| 0 <= k < v.len() && #[trigger] v[k] == crate::ranking::peak_of(v),
    decreases v.len(),
{
    let rest = v.drop_last();
    if crate::ranking::peak_of(rest) < v.last() {
        assert(v[v.len() - 1] == crate::ranking::peak_of(v));
    } else {
        lemma_peak_is_met(rest);
        let k = choose|k: int| 0 <= k < rest.len() && #[trigger] rest[k] == crate::ranking::peak_of(
            rest,
        );
        assert(v[k] == crate::ranking::peak_of(v));
    }
}

/// A strip that the search leads to has a member: the block that gave it its
/// strength.
pub proof fn a_chosen_strip_has_members(field: StripField, r: StripChoice)
    requires
        field.well_formed(),
        field.leads_to(r),
        forall|i: int|
            0 <= i < field.n() ==> {
                let c = #[trigger] field.candidates@[i];
                c.doubled >= c.effective && c.doubled >= c.lifted && c.rect.cy2() < 2
                    * field.frame.h
            },
    ensures
        r.members@.len() > 0,
{
    let s = r.strip as int;
    let h = field.frame.h as int;
    let pool = field.strip_pool(s);
    let m = if s == 0 && field.whole_figure() {
        Measure::Lifted
    } else {
        Measure::Effective
    };
    let v = field.measured(pool, m);
    lemma_peak_is_met(v);
    let k = choose|k: int| 0 <= k < v.len() && #[trigger] v[k] == crate::ranking::peak_of(v);
    let x = pool[k];
    let all = crate::selection::every(field.n());
    assert(pool.contains(x));
    crate::selection::sifting_keeps_the_flagged(all, field.in_strip(s), x);
    let i = choose|i: int| 0 <= i < all.len() && all[i] == x;
    assert(field.candidates.len() <= usize::MAX);
    assert(x as int == i);
    let c = field.candidates@[i];
    let row4 = 4 * c.rect.cy2();
    assert(field.in_strip(s)[i]);
    vstd::arithmetic::div_mod::lemma_fundamental_div_mod(row4, h);
    vstd::arithmetic::div_mod::lemma_mod_bound(row4, h);
    let q = row4 / h;
    assert(q <= 7) by (nonlinear_arith)
        requires
            row4 == h * q + row4 % h,
            0 <= row4 % h,
            row4 < 8 * h,
            h > 0,
    ;
    assert(q == s);
    assert(s * h <= row4 < (s + 1) * h) by (nonlinear_arith)
        requires
            row4 == h * s + row4 % h,
            0 <= row4 % h < h,
    ;
    assert(field.strong_in(s)[i]);
    crate::selection::sifting_keeps_the_flagged(all, field.strong_in(s), x);
    assert(r.members@.contains(x));
}

/// A block belongs to the strip that its centre lies in.
pub proof fn strips_hold_their_blocks(field: StripField, s: int, i: usize)
    requires
        field.well_formed(),
        i < field.n(),
        0 <= s < 8,
        field.candidates@[i as int].rect.cy2() < 2 * field.frame.h,
    ensures
        field.strip_pool(s).contains(i) <==> s * field.frame.h <= 4 * (2
            * field.candidates@[i as int].rect.y + field.candidates@[i as int].rect.h) && 4 * (2
            * field.candidates@[i as int].rect.y + field.candidates@[i as int].rect.h) < (s + 1)
            * field.frame.h,
{
    let all = crate::selection::every(field.n());
    let h = field.frame.h as int;
    let cy2 = field.candidates@[i as int].rect.cy2();
    assert(all[i as int] == i);
    crate::selection::sifting_keeps_the_flagged(all, field.in_strip(s), i);
    crate::grid::strips_cut_the_height_in_eight(field.frame, cy2);
    let t = field.frame.strip(cy2);
    if t < s {
        assert((t + 1) * h <= s * h) by (nonlinear_arith)
            requires
                t < s,
                h > 0,
        ;
    } else if s < t {
        assert((s + 1) * h <= t * h) by (nonlinear_arith)
            requires
                s < t,
                h > 0,
        ;
    } else if t == 7 {
        assert((7 + 1) * h == 8 * h);
    }
}

/// The face-like blocks of the search are those with an eye band of 0.10 on skin
/// of 0.10.
pub proof fn strip_faces_have_eyes_on_skin(field: StripField, i: usize)
    requires
        i < field.n(),
    ensures
        field.face_pool().contains(i) <==> field.candidates@[i as int].eye_band >= AT_010
            && field.candidates@[i as int].skin_density >= AT_010,
{
    let all = crate::selection::every(field.n());
    assert(all[i as int] == i);
    crate::selection::sifting_keeps_the_flagged(all, field.face_like(), i);
}

/// A head is on top if there is a face-like block, one of them is centred in the
/// upper 15% of the frame, and no two are a fifth of its height apart or more.
pub proof fn heads_on_top_are_close_together(field: StripField, i: int, j: int)
    requires
        0 <= i < field.face_pool().len(),
        0 <= j < field.face_pool().len(),
    ensures
        field.head_on_top() ==> 5 * (field.rows2(field.face_pool())[i] - field.rows2(
            field.face_pool(),
        )[j]) < 2 * field.frame.h,
        field.head_on_top() ==> exists|k: int|
            0 <= k < field.face_pool().len() && 10 * #[trigger] field.rows2(field.face_pool())[k] < 3
                * field.frame.h,
        (forall|a: int, b: int|
            0 <= a < field.face_pool().len() && 0 <= b < field.face_pool().len() ==> 5 * (
            #[trigger] field.rows2(field.face_pool())[a] - #[trigger] field.rows2(
                field.face_pool(),
            )[b]) < 2 * field.frame.h) && 10 * field.rows2(field.face_pool())[i] < 3 * field.frame.h
            ==> field.head_on_top(),
        field.rows2(field.face_pool())[i] == 2 * field.candidates@[field.face_pool()[i] as int].rect.y
            + field.candidates@[field.face_pool()[i] as int].rect.h,
{
    let rows = field.rows2(field.face_pool());
    crate::selection::extremes_bound_the_list(rows);
    let a = choose|a: int| 0 <= a < rows.len() && rows[a] == crate::selection::max_of(rows);
    let b = choose|b: int| 0 <= b < rows.len() && rows[b] == crate::selection::min_of(rows);
    assert(rows[a] - rows[b] == crate::selection::max_of(rows) - crate::selection::min_of(rows));
    assert(crate::selection::min_of(rows) <= rows[i] <= crate::selection::max_of(rows));
    assert(crate::selection::min_of(rows) <= rows[j] <= crate::selection::max_of(rows));
}

/// A whole figure is in a frame narrower than 4:5 with its head on top and skin of
/// 0.15 in the uppermost strip.
pub proof fn whole_figures_have_skin_on_top(field: StripField)
    ensures
        5 * field.frame.w >= 4 * field.frame.h ==> !field.whole_figure(),
        !field.head_on_top() ==> !field.whole_figure(),
        field.whole_figure() ==> exists|k: int|
            0 <= k < field.strip_pool(0).len() && field.candidates@[#[trigger] field.strip_pool(0)[k] as int].skin_density
                >= AT_015,
        5 * field.frame.w < 4 * field.frame.h && field.head_on_top() && (exists|k: int|
            0 <= k < field.strip_pool(0).len() && field.candidates@[#[trigger] field.strip_pool(0)[k] as int].skin_density
                >= AT_015) ==> field.whole_figure(),
{
    let pool = field.strip_pool(0);
    let v = field.measured(pool, Measure::Skin);
    crate::ranking::peaks_bound_the_list(v);
    if crate::ranking::peak_of(v) >= AT_015 {
        let k = choose|k: int| 0 <= k < v.len() && #[trigger] v[k] == crate::ranking::peak_of(v);
        assert(field.candidates@[pool[k] as int].skin_density >= AT_015);
    }
    if exists|k: int|
        0 <= k < pool.len() && field.candidates@[#[trigger] pool[k] as int].skin_density >= AT_015 {
        let k = choose|k: int|
            0 <= k < pool.len() && field.candidates@[#[trigger] pool[k] as int].skin_density
                >= AT_015;
        assert(v[k] <= crate::ranking::peak_of(v));
    }
}

/// A strip is as strong as the strongest effective eye band in it, lifted in the
/// uppermost one of a whole figure only.
pub proof fn strips_are_as_strong_as_their_eyes(field: StripField, s: int, k: int)
    requires
        0 <= k < field.strip_pool(s).len(),
    ensures
        s != 0 || !field.whole_figure() ==> field.candidates@[field.strip_pool(s)[k] as int].effective
            <= field.strength(s),
        s == 0 && field.whole_figure() ==> field.candidates@[field.strip_pool(s)[k] as int].lifted
            <= field.strength(s),
        field.strength(s) >= 0,
        field.strength(s) > 0 && (s != 0 || !field.whole_figure()) ==> exists|j: int|
            0 <= j < field.strip_pool(s).len() && field.candidates@[#[trigger] field.strip_pool(s)[j] as int].effective
                == field.strength(s),
        field.strength(s) > 0 && s == 0 && field.whole_figure() ==> exists|j: int|
            0 <= j < field.strip_pool(s).len() && field.candidates@[#[trigger] field.strip_pool(s)[j] as int].lifted
                == field.strength(s),
{
    let pool = field.strip_pool(s);
    let lifted = s == 0 && field.whole_figure();
    let v = if lifted {
        field.measured(pool, Measure::Lifted)
    } else {
        field.measured(pool, Measure::Effective)
    };
    crate::ranking::peaks_bound_the_list(v);
    assert(v[k] <= field.strength(s));
    if field.strength(s) > 0 {
        let j = choose|j: int| 0 <= j < v.len() && #[trigger] v[j] == crate::ranking::peak_of(v);
        assert(if lifted {
            field.candidates@[pool[j] as int].lifted == field.strength(s)
        } else {
            field.candidates@[pool[j] as int].effective == field.strength(s)
        });
    }
}

/// Where the search leads: to a strip of 0.05 or more that none is stronger than
/// and those below are weaker than; to the blocks centred in it with half its
/// strength; and 0.15 of the point stays for a head at the top of a whole figure,
/// 0.40 for any other.
pub proof fn searches_lead_to_the_strongest_strip(field: StripField, r: StripChoice, s: int, i: usize)
    requires
        field.leads_to(r),
        0 <= s < 8,
        i < field.n(),
    ensures
        r.strip < 8,
        field.strength(r.strip as int) >= AT_005,
        field.strengths()[s] <= field.strengths()[r.strip as int],
        s > r.strip ==> field.strengths()[s] < field.strengths()[r.strip as int],
        r.members@.contains(i) <==> r.strip * field.frame.h <= 4 * (2
            * field.candidates@[i as int].rect.y + field.candidates@[i as int].rect.h) && 4 * (2
            * field.candidates@[i as int].rect.y + field.candidates@[i as int].rect.h) < (r.strip + 1)
            * field.frame.h && field.candidates@[i as int].doubled >= field.strength(r.strip as int),
        r.alpha == AT_015 <==> r.strip == 0 && field.whole_figure(),
        r.alpha == AT_015 || r.alpha == AT_040,
{
    let all = crate::selection::every(field.n());
    assert(all[i as int] == i);
    crate::selection::sifting_keeps_the_flagged(all, field.strong_in(r.strip as int), i);
    assert(field.strengths()[s] <= field.strengths()[r.strip as int]);
}

} // verus!
