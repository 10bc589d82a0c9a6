//! Eye pairs among the crests of a radial-symmetry map.
//!
//! Pupils are small dark blobs, so each leaves a crest in the map. Two crests
//! of comparable strength, roughly level and a plausible distance apart, form
//! a pair, unless another such crest stands right above or below either of
//! them, as in a lattice of dots.

use crate::marks::AT_012;
use crate::rank::{larger, Rank};
use crate::ranking::{ranked, thin, Spot};
use vstd::prelude::*;

verus! {

/// The number of crests that are looked at, strongest first.
pub const MAX_CRESTS: usize = 40;

/// The squared distance that these crests keep from each other.
pub const CREST_GAP2: u32 = 9;

/// A radial-symmetry map, row by row.
pub struct RadialMap {
    pub w: u32,
    pub h: u32,
    /// The response at each pixel.
    pub level: Vec<Rank>,
    /// The response that a partner of each pixel needs: 0.45 of its own.
    pub partner: Vec<Rank>,
    /// The response that a crest needs: 0.30 of the strongest in the map.
    pub relative_floor: Rank,
}

/// Two crests that can be a pair of eyes.
#[derive(Clone, Copy)]
pub struct EyePair {
    /// The sum of the members' columns: twice that of the midpoint.
    pub mid_x2: u64,
    /// The sum of the members' rows: twice that of the midpoint.
    pub mid_y2: u64,
    /// The distance of the members' columns in pixels.
    pub spacing: u32,
    /// The stronger member.
    pub m1: Spot,
    /// The weaker member.
    pub m2: Spot,
}

/// The pixel's column and row.
pub open spec fn spot_of(w: u32, i: int) -> Spot {
    ((i % w as int) as u32, (i / w as int) as u32)
}

/// The distance of two coordinates.
pub open spec fn gap(a: u32, b: u32) -> int {
    if a >= b {
        a - b
    } else {
        b - a
    }
}

impl RadialMap {
    /// The maps hold one entry for each pixel.
    pub open spec fn well_formed(&self) -> bool {
        &&& self.level@.len() == self.w * self.h
        &&& self.partner@.len() == self.w * self.h
    }

    /// The response that a crest needs.
    pub open spec fn floor(&self) -> int {
        crate::rank::max_rank(self.relative_floor as int, AT_012 as int)
    }

    /// Whether pixel `i` is a crest: two pixels or more inside the frame, not
    /// under the floor, and over its four neighbours; the left and upper one
    /// may equal it.
    pub open spec fn is_crest(&self, i: int) -> bool {
        let x = i % self.w as int;
        let y = i / self.w as int;
        &&& 2 <= x < self.w - 2
        &&& 2 <= y < self.h - 2
        &&& self.level@[i] >= self.floor()
        &&& self.level@[i] >= self.level@[i - 1]
        &&& self.level@[i] > self.level@[i + 1]
        &&& self.level@[i] >= self.level@[i - self.w]
        &&& self.level@[i] > self.level@[i + self.w]
    }

    /// The crests among the first `upto` pixels, in the order of the map.
    pub open spec fn crests(&self, upto: int) -> Seq<usize>
        decreases upto,
    {
        if upto <= 0 {
            Seq::empty()
        } else if self.is_crest(upto - 1) {
            self.crests(upto - 1).push((upto - 1) as usize)
        } else {
            self.crests(upto - 1)
        }
    }

    /// All crests.
    pub open spec fn all_crests(&self) -> Seq<usize> {
        self.crests(self.level@.len() as int)
    }

    /// The responses at the crests.
    pub open spec fn crest_levels(&self) -> Seq<Rank> {
        Seq::new(self.all_crests().len(), |k: int| self.level@[self.all_crests()[k] as int])
    }

    /// The places of the crests.
    pub open spec fn crest_spots(&self) -> Seq<Spot> {
        Seq::new(self.all_crests().len(), |k: int| spot_of(self.w, self.all_crests()[k] as int))
    }

    /// The crests that are looked at: strongest first, none crowding a
    /// stronger one, and no more than the limit.
    pub open spec fn eye_crests(&self) -> Seq<usize> {
        let kept = crate::ranking::thinned(
            self.crest_spots(),
            crate::ranking::order_of(self.crest_levels()),
            MAX_CRESTS as int,
            CREST_GAP2 as int,
            self.all_crests().len() as int,
        );
        Seq::new(kept.len(), |k: int| self.all_crests()[kept[k] as int])
    }

    /// Whether a distance is within 15% of the frame's long edge.
    pub open spec fn within_span(&self, d: int) -> bool {
        20 * d <= 3 * self.w || 20 * d <= 3 * self.h
    }

    /// Whether two members `dx` and `dy` apart are spaced like eyes.
    pub open spec fn spaced_like_eyes(&self, dx: int, dy: int) -> bool {
        3 <= dx && self.within_span(dx) && near_level(dx, dy)
    }

    /// Whether crest `k` stands right above or below crest `m` of a pair whose
    /// members are `dx` apart.
    pub open spec fn stacked(&self, m: Spot, k: Spot, dx: int) -> bool {
        &&& nearly_below(dx, gap(k.0, m.0))
        &&& 3 <= gap(k.1, m.1)
        &&& self.within_span(gap(k.1, m.1))
    }

    /// Whether any crest comparable to `p` stands above or below `p` or `q`.
    pub open spec fn in_lattice(&self, crests: Seq<usize>, p: int, q: int) -> bool {
        let a = spot_of(self.w, p);
        let b = spot_of(self.w, q);
        exists|k: int|
            0 <= k < crests.len() && self.level@[#[trigger] crests[k] as int] >= self.partner@[p] && (
            self.stacked(a, spot_of(self.w, crests[k] as int), gap(a.0, b.0)) || self.stacked(
                b,
                spot_of(self.w, crests[k] as int),
                gap(a.0, b.0),
            ))
    }

    /// Whether crests `p` and `q`, the former as strong at least, are a pair.
    pub open spec fn is_pair(&self, crests: Seq<usize>, p: int, q: int) -> bool {
        let a = spot_of(self.w, p);
        let b = spot_of(self.w, q);
        &&& self.level@[q] >= self.partner@[p]
        &&& self.spaced_like_eyes(gap(a.0, b.0), gap(a.1, b.1))
        &&& !self.in_lattice(crests, p, q)
    }

    /// The pair that crests `p` and `q` make.
    pub open spec fn pair(&self, p: int, q: int) -> EyePair {
        let a = spot_of(self.w, p);
        let b = spot_of(self.w, q);
        EyePair {
            mid_x2: (a.0 + b.0) as u64,
            mid_y2: (a.1 + b.1) as u64,
            spacing: gap(a.0, b.0) as u32,
            m1: a,
            m2: b,
        }
    }

    /// Whether a pair is the one that crests `p` and `q` make, the former the
    /// stronger one.
    pub open spec fn make_pair(&self, pair: EyePair, p: int, q: int) -> bool {
        &&& self.is_crest(p)
        &&& self.is_crest(q)
        &&& self.level@[q] <= self.level@[p]
        &&& self.is_pair(self.eye_crests(), p, q)
        &&& pair == self.pair(p, q)
    }

    /// The pairs of crest number `i` with those after it and before `upto`.
    pub open spec fn pairs_of(&self, crests: Seq<usize>, i: int, upto: int) -> Seq<EyePair>
        decreases upto - i,
    {
        if upto <= i + 1 {
            Seq::empty()
        } else {
            let rest = self.pairs_of(crests, i, upto - 1);
            if self.is_pair(crests, crests[i] as int, crests[upto - 1] as int) {
                rest.push(self.pair(crests[i] as int, crests[upto - 1] as int))
            } else {
                rest
            }
        }
    }

    /// The pairs of the first `upto` crests with those after them.
    pub open spec fn pairs_among(&self, crests: Seq<usize>, upto: int) -> Seq<EyePair>
        decreases upto,
    {
        if upto <= 0 {
            Seq::empty()
        } else {
            self.pairs_among(crests, upto - 1) + self.pairs_of(
                crests,
                upto - 1,
                crests.len() as int,
            )
        }
    }

    /// All eye pairs of the map.
    pub open spec fn pairs(&self) -> Seq<EyePair> {
        self.pairs_among(self.eye_crests(), self.eye_crests().len() as int)
    }

    fn near_span(&self, d: u32) -> (r: bool)
        ensures
            r == self.within_span(d as int),
            r == (20 * d <= 3 * self.w || 20 * d <= 3 * self.h),
    {
        let long: u32 = if self.w >= self.h {
            self.w
        } else {
            self.h
        };
        20 * (d as u64) <= 3 * (long as u64)
    }

    fn crest_at(&self, i: usize) -> (r: bool)
        requires
            self.well_formed(),
            i < self.level@.len(),
        ensures
            r == self.is_crest(i as int),
    {
        proof {
            lemma_pixel_in_frame(self.w as int, self.h as int, i as int);
        }
        let w: usize = self.w as usize;
        let x: usize = i % w;
        let y: usize = i / w;
        if x < 2 || w - x <= 2 || y < 2 || self.h as usize - y <= 2 {
            return false;
        }
        proof {
            lemma_neighbours_in_frame(self.w as int, self.h as int, i as int);
            assert(self.level.len() <= usize::MAX);
        }
        let v = self.level[i];
        v >= larger(self.relative_floor, AT_012) && v >= self.level[i - 1] && v > self.level[i + 1]
            && v >= self.level[i - w] && v > self.level[i + w]
    }

    /// The crests that are looked at.
    fn strongest_crests(&self) -> (r: Vec<usize>)
        requires
            self.well_formed(),
        ensures
            r@ == self.eye_crests(),
            forall|k: int| 0 <= k < r@.len() ==> #[trigger] r@[k] < self.level@.len(),
    {
        let mut crests: Vec<usize> = Vec::new();
        let mut levels: Vec<Rank> = Vec::new();
        let mut spots: Vec<Spot> = Vec::new();
        let mut i: usize = 0;
        while i < self.level.len()
            invariant
                self.well_formed(),
                0 <= i <= self.level@.len(),
                crests@ == self.crests(i as int),
                levels@.len() == crests@.len(),
                spots@.len() == crests@.len(),
                forall|k: int| 0 <= k < crests@.len() ==> #[trigger] crests@[k] < i,
                forall|k: int|
                    0 <= k < crests@.len() ==> #[trigger] levels@[k]
                        == self.level@[crests@[k] as int],
                forall|k: int|
                    0 <= k < crests@.len() ==> #[trigger] spots@[k] == spot_of(
                        self.w,
                        crests@[k] as int,
                    ),
            decreases self.level@.len() - i,
        {
            if self.crest_at(i) {
                proof {
                    lemma_pixel_in_frame(self.w as int, self.h as int, i as int);
                }
                crests.push(i);
                levels.push(self.level[i]);
                spots.push(((i % self.w as usize) as u32, (i / self.w as usize) as u32));
            }
            i = i + 1;
        }
        assert(levels@ == self.crest_levels());
        assert(spots@ == self.crest_spots());
        let order = ranked(&levels);
        let kept = thin(&spots, &order, MAX_CRESTS, CREST_GAP2);
        proof {
            crate::ranking::thinned_points_stand_apart(
                spots@,
                order@,
                MAX_CRESTS as int,
                CREST_GAP2 as int,
                order@.len() as int,
            );
            assert(order@.take(order@.len() as int) == order@);
            assert forall|k: int| 0 <= k < kept@.len() implies #[trigger] kept@[k]
                < crests@.len() by {
                assert(order@.contains(kept@[k]));
                let m = choose|m: int| 0 <= m < order@.len() && order@[m] == kept@[k];
                assert(order@[m] < crests@.len());
            }
        }
        let mut r: Vec<usize> = Vec::new();
        let mut k: usize = 0;
        while k < kept.len()
            invariant
                0 <= k <= kept@.len(),
                crests@ == self.all_crests(),
                forall|k: int| 0 <= k < kept@.len() ==> #[trigger] kept@[k] < crests@.len(),
                forall|k: int| 0 <= k < crests@.len() ==> #[trigger] crests@[k] < self.level@.len(),
                r@.len() == k,
                forall|m: int| 0 <= m < k ==> #[trigger] r@[m] == crests@[kept@[m] as int],
                forall|m: int| 0 <= m < k ==> #[trigger] r@[m] < self.level@.len(),
            decreases kept@.len() - k,
        {
            r.push(crests[kept[k]]);
            k = k + 1;
        }
        assert(r@ == self.eye_crests());
        r
    }

    fn stands_stacked(&self, m: Spot, k: Spot, dx: u32) -> (r: bool)
        ensures
            r == self.stacked(m, k, dx as int),
    {
        let across = distance(k.0, m.0);
        let along = distance(k.1, m.1);
        is_nearly_below(dx, across) && along >= 3 && self.near_span(along)
    }

    fn lattice_at(&self, crests: &Vec<usize>, p: usize, q: usize) -> (r: bool)
        requires
            self.well_formed(),
            p < self.level@.len(),
            q < self.level@.len(),
            forall|k: int| 0 <= k < crests@.len() ==> #[trigger] crests@[k] < self.level@.len(),
        ensures
            r == self.in_lattice(crests@, p as int, q as int),
    {
        let a = self.place(p);
        let b = self.place(q);
        let dx = distance(a.0, b.0);
        let mut k: usize = 0;
        while k < crests.len()
            invariant
                self.well_formed(),
                p < self.level@.len(),
                q < self.level@.len(),
                forall|k: int| 0 <= k < crests@.len() ==> #[trigger] crests@[k] < self.level@.len(),
                a == spot_of(self.w, p as int),
                b == spot_of(self.w, q as int),
                dx == gap(a.0, b.0),
                0 <= k <= crests@.len(),
                forall|m: int|
                    0 <= m < k ==> !(self.level@[#[trigger] crests@[m] as int]
                        >= self.partner@[p as int] && (self.stacked(
                        a,
                        spot_of(self.w, crests@[m] as int),
                        dx as int,
                    ) || self.stacked(b, spot_of(self.w, crests@[m] as int), dx as int))),
            decreases crests@.len() - k,
        {
            let c = crests[k];
            let spot = self.place(c);
            if self.level[c] >= self.partner[p] && (self.stands_stacked(a, spot, dx)
                || self.stands_stacked(b, spot, dx)) {
                return true;
            }
            k = k + 1;
        }
        false
    }

    fn place(&self, i: usize) -> (r: Spot)
        requires
            self.well_formed(),
            i < self.level@.len(),
        ensures
            r == spot_of(self.w, i as int),
    {
        proof {
            lemma_pixel_in_frame(self.w as int, self.h as int, i as int);
        }
        ((i % self.w as usize) as u32, (i / self.w as usize) as u32)
    }

    fn pair_at(&self, crests: &Vec<usize>, p: usize, q: usize) -> (r: Option<EyePair>)
        requires
            self.well_formed(),
            p < self.level@.len(),
            q < self.level@.len(),
            forall|k: int| 0 <= k < crests@.len() ==> #[trigger] crests@[k] < self.level@.len(),
        ensures
            r is Some <==> self.is_pair(crests@, p as int, q as int),
            r matches Some(pair) ==> pair == self.pair(p as int, q as int),
    {
        let a = self.place(p);
        let b = self.place(q);
        let dx = distance(a.0, b.0);
        let dy = distance(a.1, b.1);
        if self.level[q] < self.partner[p] {
            return None;
        }
        if dx < 3 || !self.near_span(dx) || !is_level(dx, dy) {
            return None;
        }
        if self.lattice_at(crests, p, q) {
            return None;
        }
        Some(
            EyePair {
                mid_x2: a.0 as u64 + b.0 as u64,
                mid_y2: a.1 as u64 + b.1 as u64,
                spacing: dx,
                m1: a,
                m2: b,
            },
        )
    }

    /// All eye pairs of the map, those of the strongest crests first.
    pub fn eye_pairs(&self) -> (r: Vec<EyePair>)
        requires
            self.well_formed(),
        ensures
            r@ == self.pairs(),
    {
        let crests = self.strongest_crests();
        let mut pairs: Vec<EyePair> = Vec::new();
        let mut i: usize = 0;
        while i < crests.len()
            invariant
                self.well_formed(),
                crests@ == self.eye_crests(),
                forall|k: int| 0 <= k < crests@.len() ==> #[trigger] crests@[k] < self.level@.len(),
                0 <= i <= crests@.len(),
                pairs@ == self.pairs_among(crests@, i as int),
            decreases crests@.len() - i,
        {
            let ghost earlier = pairs@;
            let mut j: usize = i + 1;
            while j < crests.len()
                invariant
                    self.well_formed(),
                    forall|k: int|
                        0 <= k < crests@.len() ==> #[trigger] crests@[k] < self.level@.len(),
                    0 <= i < j <= crests@.len(),
                    pairs@ == earlier + self.pairs_of(crests@, i as int, j as int),
                decreases crests@.len() - j,
            {
                if let Some(pair) = self.pair_at(&crests, crests[i], crests[j]) {
                    pairs.push(pair);
                }
                j = j + 1;
                assert(pairs@ == earlier + self.pairs_of(crests@, i as int, j as int));
            }
            i = i + 1;
        }
        pairs
    }
}

/// Whether a height difference is at most 35% of the spacing.
pub open spec fn near_level(dx: int, dy: int) -> bool {
    20 * dy <= 7 * dx
}

/// Whether a sideways difference is at most 35% of the spacing, or two pixels.
pub open spec fn nearly_below(dx: int, across: int) -> bool {
    20 * across <= 7 * dx || across <= 2
}

fn is_level(dx: u32, dy: u32) -> (r: bool)
    ensures
        r == near_level(dx as int, dy as int),
{
    20 * (dy as u64) <= 7 * (dx as u64)
}

fn is_nearly_below(dx: u32, across: u32) -> (r: bool)
    ensures
        r == nearly_below(dx as int, across as int),
{
    20 * (across as u64) <= 7 * (dx as u64) || across <= 2
}

fn distance(a: u32, b: u32) -> (r: u32)
    ensures
        r == gap(a, b),
{
    if a >= b {
        a - b
    } else {
        b - a
    }
}

/// The number of eye pairs in a radial-symmetry map.
pub fn radial_eye_pairs(map: &RadialMap) -> (n: usize)
    requires
        map.well_formed(),
    ensures
        n == map.pairs().len(),
{
    map.eye_pairs().len()
}

/// Every eye pair is made by two crests of the map, the stronger one first, of
/// comparable response; they are level to 35% of their spacing, at least three
/// pixels and at most 15% of the long edge apart, and no comparable crest stands
/// above or below either.
pub proof fn eye_pairs_are_made_by_crests(map: RadialMap, k: int)
    requires
        map.well_formed(),
        map.level@.len() <= usize::MAX,
        0 <= k < map.pairs().len(),
    ensures
        exists|p: int, q: int| #[trigger] map.make_pair(map.pairs()[k], p, q),
        map.spaced_like_eyes(
            map.pairs()[k].spacing as int,
            gap(map.pairs()[k].m1.1, map.pairs()[k].m2.1),
        ),
{
    let crests = map.eye_crests();
    let pair = map.pairs()[k];
    let (i, j) = lemma_pair_among(map, crests, crests.len() as int, k);
    let p = crests[i] as int;
    let q = crests[j] as int;
    lemma_eye_crest(map, i);
    lemma_eye_crest(map, j);
    lemma_eye_crests_descend(map, i, j);
    assert(map.make_pair(pair, p, q));
}

proof fn lemma_pair_of(map: RadialMap, crests: Seq<usize>, i: int, upto: int, k: int) -> (j: int)
    requires
        0 <= i,
        upto <= crests.len(),
        0 <= k < map.pairs_of(crests, i, upto).len(),
    ensures
        i < j < upto,
        map.is_pair(crests, crests[i] as int, crests[j] as int),
        map.pairs_of(crests, i, upto)[k] == map.pair(crests[i] as int, crests[j] as int),
    decreases upto - i,
{
    let rest = map.pairs_of(crests, i, upto - 1);
    if k < rest.len() {
        lemma_pair_of(map, crests, i, upto - 1, k)
    } else {
        upto - 1
    }
}

proof fn lemma_pair_among(map: RadialMap, crests: Seq<usize>, upto: int, k: int) -> (r: (int, int))
    requires
        upto <= crests.len(),
        0 <= k < map.pairs_among(crests, upto).len(),
    ensures
        0 <= r.0 < r.1 < crests.len(),
        map.is_pair(crests, crests[r.0] as int, crests[r.1] as int),
        map.pairs_among(crests, upto)[k] == map.pair(crests[r.0] as int, crests[r.1] as int),
    decreases upto,
{
    let before = map.pairs_among(crests, upto - 1);
    if k < before.len() {
        lemma_pair_among(map, crests, upto - 1, k)
    } else {
        (upto - 1, lemma_pair_of(map, crests, upto - 1, crests.len() as int, k - before.len()))
    }
}

proof fn lemma_crest(map: RadialMap, upto: int, k: int)
    requires
        0 <= upto <= map.level@.len() <= usize::MAX,
        0 <= k < map.crests(upto).len(),
    ensures
        map.crests(upto)[k] < upto,
        map.is_crest(map.crests(upto)[k] as int),
        map.crests(upto).len() <= upto,
    decreases upto,
{
    if upto > 0 {
        let rest = map.crests(upto - 1);
        if rest.len() > 0 {
            lemma_crest(map, upto - 1, 0);
        }
        if k < rest.len() {
            lemma_crest(map, upto - 1, k);
        }
    }
}

/// The crests that are looked at, as positions among all crests.
spec fn kept_crests(map: RadialMap) -> Seq<usize> {
    crate::ranking::thinned(
        map.crest_spots(),
        crate::ranking::order_of(map.crest_levels()),
        MAX_CRESTS as int,
        CREST_GAP2 as int,
        map.all_crests().len() as int,
    )
}

proof fn lemma_kept_crests(map: RadialMap, k: int)
    requires
        map.level@.len() <= usize::MAX,
        0 <= k < map.eye_crests().len(),
    ensures
        kept_crests(map)[k] < map.all_crests().len(),
        map.eye_crests()[k] == map.all_crests()[kept_crests(map)[k] as int],
        crate::ranking::strongest_first(map.crest_levels(), kept_crests(map)),
{
    let n = map.all_crests().len() as int;
    let levels = map.crest_levels();
    let order = crate::ranking::order_of(levels);
    if n > 0 {
        lemma_crest(map, map.level@.len() as int, 0);
    }
    crate::ranking::an_order_exists(levels);
    crate::ranking::thinned_points_stand_apart(
        map.crest_spots(),
        order,
        MAX_CRESTS as int,
        CREST_GAP2 as int,
        n,
    );
    crate::ranking::thinning_keeps_the_order(
        levels,
        map.crest_spots(),
        order,
        MAX_CRESTS as int,
        CREST_GAP2 as int,
        n,
    );
    assert(order.take(n).contains(kept_crests(map)[k]));
    let m = choose|m: int| 0 <= m < order.take(n).len() && order.take(n)[m] == kept_crests(map)[k];
    assert(order[m] < levels.len());
}

proof fn lemma_eye_crest(map: RadialMap, k: int)
    requires
        map.level@.len() <= usize::MAX,
        0 <= k < map.eye_crests().len(),
    ensures
        map.is_crest(map.eye_crests()[k] as int),
{
    lemma_kept_crests(map, k);
    lemma_crest(map, map.level@.len() as int, kept_crests(map)[k] as int);
}

proof fn lemma_eye_crests_descend(map: RadialMap, a: int, b: int)
    requires
        map.level@.len() <= usize::MAX,
        0 <= a < b < map.eye_crests().len(),
    ensures
        map.level@[map.eye_crests()[b] as int] <= map.level@[map.eye_crests()[a] as int],
{
    lemma_kept_crests(map, a);
    lemma_kept_crests(map, b);
    let kept = kept_crests(map);
    assert(crate::ranking::ahead(map.crest_levels(), kept[a] as int, kept[b] as int));
}

proof fn lemma_pixel_in_frame(w: int, h: int, i: int)
    requires
        0 <= w,
        0 <= h,
        0 <= i < w * h,
    ensures
        0 < w,
        0 <= i % w < w,
        0 <= i / w < h,
        i == (i / w) * w + i % w,
{
    assert(0 < w) by (nonlinear_arith)
        requires
            0 <= w,
            0 <= i < w * h,
    ;
    vstd::arithmetic::div_mod::lemma_fundamental_div_mod(i, w);
    assert(i / w < h) by (nonlinear_arith)
        requires
            0 < w,
            i < w * h,
            i == w * (i / w) + i % w,
            0 <= i % w,
    ;
    assert(0 <= i / w) by (nonlinear_arith)
        requires
            0 < w,
            0 <= i,
    ;
    assert(w * (i / w) == (i / w) * w) by (nonlinear_arith);
}

proof fn lemma_neighbours_in_frame(w: int, h: int, i: int)
    requires
        0 <= i < w * h,
        0 < w,
        1 <= i % w < w - 1,
        1 <= i / w < h - 1,
    ensures
        0 <= i - w,
        i + w < w * h,
        0 <= i - 1,
        i + 1 < w * h,
{
    lemma_pixel_in_frame(w, h, i);
    let y = i / w;
    assert(w <= y * w && (y + 1) * w + w <= w * h && y * w + w == (y + 1) * w) by (nonlinear_arith)
        requires
            1 <= y <= h - 2,
            0 < w,
    ;
}

/// A crest is a pixel at least two inside the frame whose response reaches 0.12
/// and the map's floor, is not below its left and upper neighbour and is above its
/// right and lower one; every such pixel is a crest.
pub proof fn crests_rise_over_their_neighbours(map: RadialMap, x: int, y: int)
    requires
        map.well_formed(),
        0 <= x < map.w,
        0 <= y < map.h,
    ensures
        ({
            let i = y * map.w + x;
            let v = map.level@[i];
            map.is_crest(i) <==> {
                &&& 2 <= x && x + 2 < map.w
                &&& 2 <= y && y + 2 < map.h
                &&& v >= AT_012
                &&& v >= map.relative_floor
                &&& v >= map.level@[y * map.w + (x - 1)]
                &&& v > map.level@[y * map.w + (x + 1)]
                &&& v >= map.level@[(y - 1) * map.w + x]
                &&& v > map.level@[(y + 1) * map.w + x]
            }
        }),
        spot_of(map.w, y * map.w + x) == (x as u32, y as u32),
{
    let w = map.w as int;
    vstd::arithmetic::div_mod::lemma_fundamental_div_mod_converse(y * w + x, w, y, x);
    assert((y - 1) * w + x == y * w + x - w && (y + 1) * w + x == y * w + x + w) by (nonlinear_arith);
}

/// Every crest of the map is among those that all are listed by.
proof fn lemma_crest_is_listed(map: RadialMap, upto: int, i: int)
    requires
        0 <= i < upto <= map.level@.len() <= usize::MAX,
        map.is_crest(i),
    ensures
        map.crests(upto).contains(i as usize),
    decreases upto,
{
    let rest = map.crests(upto - 1);
    if i == upto - 1 {
        assert(map.crests(upto)[rest.len() as int] == i as usize);
    } else {
        lemma_crest_is_listed(map, upto - 1, i);
        let k = choose|k: int| 0 <= k < rest.len() && rest[k] == i as usize;
        assert(map.crests(upto)[k] == i as usize);
    }
}

/// The crests that are looked at are forty at most, strongest first, and at least
/// three pixels from each other; a crest is left out only where there are forty or
/// one of them is closer than three pixels.
pub proof fn the_strongest_crests_are_looked_at(map: RadialMap, i: int, a: int, b: int)
    requires
        map.well_formed(),
        map.level@.len() <= usize::MAX,
    ensures
        map.eye_crests().len() <= 40,
        0 <= a < b < map.eye_crests().len() ==> ({
            let p = map.eye_crests()[a] as int;
            let q = map.eye_crests()[b] as int;
            &&& map.is_crest(p) && map.is_crest(q)
            &&& map.level@[q] <= map.level@[p]
            &&& crate::ranking::distance2(spot_of(map.w, p), spot_of(map.w, q)) >= 9
        }),
        map.eye_crests().len() < 40 && 0 <= i < map.level@.len() && map.is_crest(i)
            ==> map.eye_crests().contains(i as usize) || exists|k: int|
            0 <= k < map.eye_crests().len() && crate::ranking::distance2(
                spot_of(map.w, #[trigger] map.eye_crests()[k] as int),
                spot_of(map.w, i),
            ) < 9,
{
    let n = map.all_crests().len() as int;
    let levels = map.crest_levels();
    let spots = map.crest_spots();
    let order = crate::ranking::order_of(levels);
    let kept = kept_crests(map);
    if n > 0 {
        lemma_crest(map, map.level@.len() as int, 0);
    }
    crate::ranking::an_order_exists(levels);
    crate::ranking::thinned_points_stand_apart(spots, order, 40, 9, n);
    if 0 <= a < b < map.eye_crests().len() {
        lemma_eye_crest(map, a);
        lemma_eye_crest(map, b);
        lemma_eye_crests_descend(map, a, b);
        lemma_kept_crests(map, a);
        lemma_kept_crests(map, b);
        assert(crate::ranking::distance2(spots[kept[a] as int], spots[kept[b] as int]) >= 9);
    }
    if map.eye_crests().len() < 40 && 0 <= i < map.level@.len() && map.is_crest(i) {
        lemma_crest_is_listed(map, map.level@.len() as int, i);
        let c = choose|c: int| 0 <= c < n && map.all_crests()[c] == i as usize;
        assert(order.contains(c as usize));
        let m = choose|m: int| 0 <= m < order.len() && order[m] == c as usize;
        crate::ranking::thinning_drops_only_crowded_points(spots, order, 40, 9, n, m);
        if kept.contains(order[m]) {
            let k = choose|k: int| 0 <= k < kept.len() && kept[k] == order[m];
            assert(map.eye_crests()[k] == i as usize);
        } else {
            let k = choose|k: int|
                0 <= k < kept.len() && crate::ranking::distance2(
                    spots[#[trigger] kept[k] as int],
                    spots[order[m] as int],
                ) < 9;
            lemma_kept_crests(map, k);
            assert(spots[kept[k] as int] == spot_of(map.w, map.eye_crests()[k] as int));
            assert(spots[c] == spot_of(map.w, i));
        }
    }
}

proof fn lemma_pairs_of_holds(map: RadialMap, crests: Seq<usize>, i: int, j: int, upto: int)
    requires
        0 <= i < j < upto <= crests.len(),
        map.is_pair(crests, crests[i] as int, crests[j] as int),
    ensures
        map.pairs_of(crests, i, upto).contains(map.pair(crests[i] as int, crests[j] as int)),
    decreases upto - i,
{
    let rest = map.pairs_of(crests, i, upto - 1);
    let pair = map.pair(crests[i] as int, crests[j] as int);
    if j == upto - 1 {
        assert(map.pairs_of(crests, i, upto)[rest.len() as int] == pair);
    } else {
        lemma_pairs_of_holds(map, crests, i, j, upto - 1);
        let k = choose|k: int| 0 <= k < rest.len() && rest[k] == pair;
        assert(map.pairs_of(crests, i, upto)[k] == pair);
    }
}

proof fn lemma_pairs_among_holds(map: RadialMap, crests: Seq<usize>, i: int, j: int, upto: int)
    requires
        0 <= i < j < crests.len(),
        i < upto <= crests.len(),
        map.is_pair(crests, crests[i] as int, crests[j] as int),
    ensures
        map.pairs_among(crests, upto).contains(map.pair(crests[i] as int, crests[j] as int)),
    decreases upto,
{
    let before = map.pairs_among(crests, upto - 1);
    let own = map.pairs_of(crests, upto - 1, crests.len() as int);
    let pair = map.pair(crests[i] as int, crests[j] as int);
    if i == upto - 1 {
        lemma_pairs_of_holds(map, crests, i, j, crests.len() as int);
        let k = choose|k: int| 0 <= k < own.len() && own[k] == pair;
        assert(map.pairs_among(crests, upto)[before.len() + k] == pair);
    } else {
        lemma_pairs_among_holds(map, crests, i, j, upto - 1);
        let k = choose|k: int| 0 <= k < before.len() && before[k] == pair;
        assert(map.pairs_among(crests, upto)[k] == pair);
    }
}

/// No eye pair is missed: any two of the crests that are looked at, of which the
/// weaker reaches what a partner of the stronger needs, are listed as a pair if
/// they are three pixels apart across or more, at most 15% of the long edge, and
/// level to 35% of that, and no crest of such a response is 3 pixels to 15% of the
/// long edge above or below either, within 35% of their spacing or two pixels
/// across.
pub proof fn no_eye_pair_is_missed(map: RadialMap, i: int, j: int)
    requires
        map.well_formed(),
        map.level@.len() <= usize::MAX,
        0 <= i < j < map.eye_crests().len(),
        ({
            let crests = map.eye_crests();
            let p = crests[i] as int;
            let q = crests[j] as int;
            let w = map.w as int;
            let dx = if p % w >= q % w {
                p % w - q % w
            } else {
                q % w - p % w
            };
            let dy = if p / w >= q / w {
                p / w - q / w
            } else {
                q / w - p / w
            };
            &&& map.level@[q] >= map.partner@[p]
            &&& 3 <= dx
            &&& 20 * dx <= 3 * map.w || 20 * dx <= 3 * map.h
            &&& 20 * dy <= 7 * dx
            &&& forall|k: int|
                0 <= k < crests.len() && map.level@[#[trigger] crests[k] as int] >= map.partner@[p]
                    ==> {
                    let c = crests[k] as int;
                    let px = if c % w >= p % w {
                        c % w - p % w
                    } else {
                        p % w - c % w
                    };
                    let py = if c / w >= p / w {
                        c / w - p / w
                    } else {
                        p / w - c / w
                    };
                    let qx = if c % w >= q % w {
                        c % w - q % w
                    } else {
                        q % w - c % w
                    };
                    let qy = if c / w >= q / w {
                        c / w - q / w
                    } else {
                        q / w - c / w
                    };
                    &&& (20 * px > 7 * dx && px > 2) || py < 3 || (20 * py > 3 * map.w && 20 * py > 3
                        * map.h)
                    &&& (20 * qx > 7 * dx && qx > 2) || qy < 3 || (20 * qy > 3 * map.w && 20 * qy > 3
                        * map.h)
                }
        }),
    ensures
        ({
            let p = map.eye_crests()[i] as int;
            let q = map.eye_crests()[j] as int;
            let w = map.w as int;
            exists|k: int|
                0 <= k < map.pairs().len() && {
                    let pair = #[trigger] map.pairs()[k];
                    &&& pair.m1.0 == p % w && pair.m1.1 == p / w
                    &&& pair.m2.0 == q % w && pair.m2.1 == q / w
                    &&& pair.mid_x2 == p % w + q % w
                    &&& pair.mid_y2 == p / w + q / w
                    &&& pair.spacing == p % w - q % w || pair.spacing == q % w - p % w
                }
        }),
{
    let crests = map.eye_crests();
    let p = crests[i] as int;
    let q = crests[j] as int;
    lemma_kept_crests(map, i);
    lemma_kept_crests(map, j);
    lemma_crest(map, map.level@.len() as int, kept_crests(map)[i] as int);
    lemma_crest(map, map.level@.len() as int, kept_crests(map)[j] as int);
    lemma_pixel_in_frame(map.w as int, map.h as int, p);
    lemma_pixel_in_frame(map.w as int, map.h as int, q);
    let a = spot_of(map.w, p);
    let b = spot_of(map.w, q);
    assert(map.spaced_like_eyes(gap(a.0, b.0), gap(a.1, b.1)));
    assert(!map.in_lattice(crests, p, q)) by {
        if map.in_lattice(crests, p, q) {
            let k = choose|k: int|
                0 <= k < crests.len() && map.level@[#[trigger] crests[k] as int]
                    >= map.partner@[p] && (map.stacked(
                    a,
                    spot_of(map.w, crests[k] as int),
                    gap(a.0, b.0),
                ) || map.stacked(b, spot_of(map.w, crests[k] as int), gap(a.0, b.0)));
            lemma_kept_crests(map, k);
            lemma_crest(map, map.level@.len() as int, kept_crests(map)[k] as int);
            lemma_pixel_in_frame(map.w as int, map.h as int, crests[k] as int);
            assert(false);
        }
    }
    assert(map.is_pair(crests, p, q));
    lemma_pairs_among_holds(map, crests, i, j, crests.len() as int);
    let k = choose|k: int| 0 <= k < map.pairs().len() && map.pairs()[k] == map.pair(p, q);
    assert(map.pairs()[k].m1 == a);
}

/// Nothing but eye pairs is listed: the members of each are at least three pixels
/// apart across and at most 15% of the long edge, level to 35% of that, and their
/// pair says where the middle is.
pub proof fn listed_pairs_are_spaced_like_eyes(map: RadialMap, k: int)
    requires
        map.well_formed(),
        map.level@.len() <= usize::MAX,
        0 <= k < map.pairs().len(),
    ensures
        ({
            let pair = map.pairs()[k];
            let dy = if pair.m1.1 >= pair.m2.1 {
                pair.m1.1 - pair.m2.1
            } else {
                pair.m2.1 - pair.m1.1
            };
            &&& pair.spacing == pair.m1.0 - pair.m2.0 || pair.spacing == pair.m2.0 - pair.m1.0
            &&& 3 <= pair.spacing
            &&& 20 * pair.spacing <= 3 * map.w || 20 * pair.spacing <= 3 * map.h
            &&& 20 * dy <= 7 * pair.spacing
            &&& pair.mid_x2 == pair.m1.0 + pair.m2.0
            &&& pair.mid_y2 == pair.m1.1 + pair.m2.1
            &&& pair.m1.0 < map.w && pair.m2.0 < map.w
            &&& pair.m1.1 < map.h && pair.m2.1 < map.h
        }),
{
    let crests = map.eye_crests();
    let (i, j) = lemma_pair_among(map, crests, crests.len() as int, k);
    lemma_kept_crests(map, i);
    lemma_kept_crests(map, j);
    lemma_crest(map, map.level@.len() as int, kept_crests(map)[i] as int);
    lemma_crest(map, map.level@.len() as int, kept_crests(map)[j] as int);
    lemma_pixel_in_frame(map.w as int, map.h as int, crests[i] as int);
    lemma_pixel_in_frame(map.w as int, map.h as int, crests[j] as int);
}

/// Whether two crests, by their places among those that are looked at, are the
/// members of a pair.
pub open spec fn are_members(map: RadialMap, pair: EyePair, i: int, j: int) -> bool {
    let p = map.eye_crests()[i] as int;
    let q = map.eye_crests()[j] as int;
    let w = map.w as int;
    &&& 0 <= i < j < map.eye_crests().len()
    &&& pair.m1.0 == p % w && pair.m1.1 == p / w
    &&& pair.m2.0 == q % w && pair.m2.1 == q / w
}

/// A listed pair has two of the crests that are looked at for its members, the
/// stronger one first, and the weaker one reaches what its partner asks for.
pub proof fn listed_pairs_are_comparable(map: RadialMap, k: int)
    requires
        map.well_formed(),
        map.level@.len() <= usize::MAX,
        0 <= k < map.pairs().len(),
    ensures
        exists|i: int, j: int| #[trigger]
            are_members(map, map.pairs()[k], i, j) && map.level@[map.eye_crests()[j] as int]
                >= map.partner@[map.eye_crests()[i] as int] && map.level@[map.eye_crests()[j] as int]
                <= map.level@[map.eye_crests()[i] as int],
{
    let crests = map.eye_crests();
    let (i, j) = lemma_pair_among(map, crests, crests.len() as int, k);
    lemma_kept_crests(map, i);
    lemma_kept_crests(map, j);
    lemma_crest(map, map.level@.len() as int, kept_crests(map)[i] as int);
    lemma_crest(map, map.level@.len() as int, kept_crests(map)[j] as int);
    lemma_pixel_in_frame(map.w as int, map.h as int, crests[i] as int);
    lemma_pixel_in_frame(map.w as int, map.h as int, crests[j] as int);
    lemma_eye_crests_descend(map, i, j);
    assert(are_members(map, map.pairs()[k], i, j));
}

/// A lattice is no pair of eyes: no crest as strong as the weaker member of a
/// listed pair or stronger stands three pixels to 15% of the long edge above or
/// below a member, within 35% of the spacing or two pixels to the side.
pub proof fn lattices_are_no_eyes(map: RadialMap, k: int, c: int)
    requires
        map.well_formed(),
        map.level@.len() <= usize::MAX,
        0 <= k < map.pairs().len(),
        0 <= c < map.eye_crests().len(),
    ensures
        exists|i: int, j: int| #[trigger]
            are_members(map, map.pairs()[k], i, j) && (map.level@[map.eye_crests()[c] as int]
                >= map.level@[map.eye_crests()[j] as int] ==> {
                let pair = map.pairs()[k];
                let x = map.eye_crests()[c] as int % map.w as int;
                let y = map.eye_crests()[c] as int / map.w as int;
                let ax = if x >= pair.m1.0 {
                    x - pair.m1.0
                } else {
                    pair.m1.0 - x
                };
                let ay = if y >= pair.m1.1 {
                    y - pair.m1.1
                } else {
                    pair.m1.1 - y
                };
                let bx = if x >= pair.m2.0 {
                    x - pair.m2.0
                } else {
                    pair.m2.0 - x
                };
                let by = if y >= pair.m2.1 {
                    y - pair.m2.1
                } else {
                    pair.m2.1 - y
                };
                &&& !((ax <= 2 || 20 * ax <= 7 * pair.spacing) && 3 <= ay && (20 * ay <= 3 * map.w || 20
                    * ay <= 3 * map.h))
                &&& !((bx <= 2 || 20 * bx <= 7 * pair.spacing) && 3 <= by && (20 * by <= 3 * map.w || 20
                    * by <= 3 * map.h))
            }),
{
    let crests = map.eye_crests();
    let (i, j) = lemma_pair_among(map, crests, crests.len() as int, k);
    lemma_kept_crests(map, i);
    lemma_kept_crests(map, j);
    lemma_kept_crests(map, c);
    lemma_crest(map, map.level@.len() as int, kept_crests(map)[i] as int);
    lemma_crest(map, map.level@.len() as int, kept_crests(map)[j] as int);
    lemma_crest(map, map.level@.len() as int, kept_crests(map)[c] as int);
    lemma_pixel_in_frame(map.w as int, map.h as int, crests[i] as int);
    lemma_pixel_in_frame(map.w as int, map.h as int, crests[j] as int);
    lemma_pixel_in_frame(map.w as int, map.h as int, crests[c] as int);
    let a = spot_of(map.w, crests[i] as int);
    let b = spot_of(map.w, crests[j] as int);
    let s = spot_of(map.w, crests[c] as int);
    if map.level@[crests[c] as int] >= map.level@[crests[j] as int] {
        assert(!(map.stacked(a, s, gap(a.0, b.0)) || map.stacked(b, s, gap(a.0, b.0)))) by {
            if map.stacked(a, s, gap(a.0, b.0)) || map.stacked(b, s, gap(a.0, b.0)) {
                assert(map.in_lattice(crests, crests[i] as int, crests[j] as int));
            }
        }
    }
    assert(are_members(map, map.pairs()[k], i, j));
}

} // verus!
