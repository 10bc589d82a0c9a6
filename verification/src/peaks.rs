//! Peaks of a map of levels, and the saliency map's own grid.

use crate::marks::AT_015;
use crate::rank::Rank;
use crate::ranking::{ranked, thin, Spot};
use crate::selection::{all_of, sift};
use vstd::prelude::*;

verus! {

/// The edge of the saliency map in cells.
pub const SAL_N: u32 = 64;

/// The border of the saliency map that is weakened.
pub const SAL_M: u32 = 3;

/// The border of the saliency map in which no peak is sought.
pub const SAL_P: u32 = 6;

/// The squared distance that saliency peaks keep from each other.
pub const SAL_GAP2: u32 = 100;

/// A map of levels, row by row.
pub struct LevelMap {
    pub w: u32,
    pub h: u32,
    pub level: Vec<Rank>,
}

impl LevelMap {
    /// There is one level for each cell.
    pub open spec fn well_formed(&self) -> bool {
        self.level@.len() == self.w * self.h
    }

    /// The number of cells.
    pub open spec fn n(&self) -> nat {
        self.level@.len()
    }

    /// The level in a column and row.
    pub open spec fn level_at(&self, x: int, y: int) -> Rank {
        self.level@[y * self.w + x]
    }

    /// The column of a cell.
    pub open spec fn x_of(&self, i: int) -> int {
        i % self.w as int
    }

    /// The row of a cell.
    pub open spec fn y_of(&self, i: int) -> int {
        i / self.w as int
    }

    /// Whether a cell keeps a margin from the border.
    pub open spec fn inside(&self, margin: int, i: int) -> bool {
        margin <= self.x_of(i) < self.w - margin && margin <= self.y_of(i) < self.h - margin
    }

    /// Whether no cell in a window around a cell is above it.
    pub open spec fn tops(&self, radius: int, i: int) -> bool {
        forall|x: int, y: int|
            self.x_of(i) - radius <= x <= self.x_of(i) + radius && self.y_of(i) - radius <= y
                <= self.y_of(i) + radius ==> #[trigger] self.level_at(x, y) <= self.level@[i]
    }

    /// The summits: cells inside the margin that are not under the floor and
    /// that no cell in their window is above.
    pub open spec fn is_summit(&self, margin: int, radius: int, floor: int) -> Seq<bool> {
        Seq::new(
            self.n(),
            |i: int| self.inside(margin, i) && self.level@[i] >= floor && self.tops(radius, i),
        )
    }

    /// The summits, row by row.
    pub open spec fn summits(&self, margin: int, radius: int, floor: int) -> Seq<usize> {
        crate::selection::sifted(
            crate::selection::every(self.n()),
            self.is_summit(margin, radius, floor),
        )
    }

    /// The levels of some cells.
    pub open spec fn levels(&self, pool: Seq<usize>) -> Seq<Rank> {
        Seq::new(pool.len(), |k: int| self.level@[pool[k] as int])
    }

    /// The places of some cells.
    pub open spec fn spots(&self, pool: Seq<usize>) -> Seq<Spot> {
        Seq::new(
            pool.len(),
            |k: int| (self.x_of(pool[k] as int) as u32, self.y_of(pool[k] as int) as u32),
        )
    }

    /// The highest of some cells, highest first.
    pub open spec fn highest_of(&self, pool: Seq<usize>, limit: int) -> Seq<usize> {
        let order = crate::ranking::order_of(self.levels(pool));
        crate::blocks::named(pool, order.take(crate::grid::least(limit, order.len() as int)))
    }

    /// The highest of some cells, highest first, none crowding a higher one.
    pub open spec fn apart_of(&self, pool: Seq<usize>, limit: int, gap2: int) -> Seq<usize> {
        crate::blocks::named(
            pool,
            crate::ranking::thinned(
                self.spots(pool),
                crate::ranking::order_of(self.levels(pool)),
                limit,
                gap2,
                pool.len() as int,
            ),
        )
    }

    proof fn lemma_cell(&self, i: int)
        requires
            self.well_formed(),
            0 <= i < self.n(),
        ensures
            0 < self.w,
            0 <= self.x_of(i) < self.w,
            0 <= self.y_of(i) < self.h,
            i == self.y_of(i) * self.w + self.x_of(i),
    {
        let w = self.w as int;
        assert(0 < w) by (nonlinear_arith)
            requires
                0 <= w,
                0 <= i < w * self.h,
        ;
        vstd::arithmetic::div_mod::lemma_fundamental_div_mod(i, w);
        vstd::arithmetic::div_mod::lemma_mod_bound(i, w);
        let q = i / w;
        assert(0 <= q < self.h && i == q * w + i % w) by (nonlinear_arith)
            requires
                i == w * q + i % w,
                0 <= i % w < w,
                0 <= i < w * self.h,
        ;
    }

    proof fn lemma_place(&self, x: int, y: int)
        requires
            self.well_formed(),
            0 <= x < self.w,
            0 <= y < self.h,
        ensures
            0 <= y * self.w,
            0 <= y * self.w + x < self.n(),
    {
        let w = self.w as int;
        assert(0 <= y * w && y * w + x < w * self.h) by (nonlinear_arith)
            requires
                0 <= x < w,
                0 <= y < self.h,
        ;
    }

    fn keeps_margin(&self, margin: u32, i: usize) -> (r: bool)
        requires
            self.well_formed(),
            i < self.n(),
        ensures
            r == self.inside(margin as int, i as int),
    {
        proof {
            self.lemma_cell(i as int);
        }
        let m: u64 = margin as u64;
        let x: u64 = i as u64 % self.w as u64;
        let y: u64 = i as u64 / self.w as u64;
        m <= x && x + m < self.w as u64 && m <= y && y + m < self.h as u64
    }

    fn is_top(&self, radius: u32, i: usize) -> (r: bool)
        requires
            self.well_formed(),
            i < self.n(),
            self.inside(radius as int, i as int),
        ensures
            r == self.tops(radius as int, i as int),
    {
        proof {
            self.lemma_cell(i as int);
            assert(self.level.len() <= usize::MAX);
        }
        let w: usize = self.w as usize;
        let x: usize = i % w;
        let y: usize = i / w;
        let rad: usize = radius as usize;
        let mut yy: usize = y - rad;
        while yy <= y + rad
            invariant
                self.well_formed(),
                self.level@.len() <= usize::MAX,
                i < self.n(),
                w == self.w,
                rad == radius,
                x == self.x_of(i as int),
                y == self.y_of(i as int),
                rad <= x,
                x + rad < self.w,
                rad <= y,
                y + rad < self.h,
                y - rad <= yy <= y + rad + 1,
                forall|a: int, b: int|
                    x - rad <= a <= x + rad && y - rad <= b < yy ==> #[trigger] self.level_at(a, b)
                        <= self.level@[i as int],
            decreases y + rad + 1 - yy,
        {
            let mut xx: usize = x - rad;
            while xx <= x + rad
                invariant
                    self.well_formed(),
                    self.level@.len() <= usize::MAX,
                    i < self.n(),
                    w == self.w,
                    rad == radius,
                    x == self.x_of(i as int),
                    y == self.y_of(i as int),
                    rad <= x,
                    x + rad < self.w,
                    rad <= y,
                    y + rad < self.h,
                    y - rad <= yy <= y + rad,
                    x - rad <= xx <= x + rad + 1,
                    forall|a: int, b: int|
                        x - rad <= a <= x + rad && y - rad <= b < yy ==> #[trigger] self.level_at(
                            a,
                            b,
                        ) <= self.level@[i as int],
                    forall|a: int|
                        x - rad <= a < xx ==> #[trigger] self.level_at(a, yy as int)
                            <= self.level@[i as int],
                decreases x + rad + 1 - xx,
            {
                proof {
                    self.lemma_place(xx as int, yy as int);
                }
                if self.level[yy * w + xx] > self.level[i] {
                    assert(self.level_at(xx as int, yy as int) > self.level@[i as int]);
                    return false;
                }
                xx = xx + 1;
            }
            yy = yy + 1;
        }
        true
    }

    /// The summits, row by row.
    pub fn find_summits(&self, margin: u32, radius: u32, floor: Rank) -> (r: Vec<usize>)
        requires
            self.well_formed(),
            radius <= margin,
        ensures
            r@ == self.summits(margin as int, radius as int, floor as int),
            crate::selection::all_below(r@, self.n() as int),
    {
        let mut keep: Vec<bool> = Vec::new();
        let mut i: usize = 0;
        while i < self.level.len()
            invariant
                self.well_formed(),
                radius <= margin,
                0 <= i <= self.n(),
                keep@ == self.is_summit(margin as int, radius as int, floor as int).take(i as int),
            decreases self.n() - i,
        {
            let is_summit: bool = self.keeps_margin(margin, i) && self.level[i] >= floor
                && self.is_top(radius, i);
            keep.push(is_summit);
            assert(is_summit == self.is_summit(margin as int, radius as int, floor as int)[i as int]);
            i = i + 1;
            assert(keep@ == self.is_summit(margin as int, radius as int, floor as int).take(
                i as int,
            ));
        }
        assert(keep@ == self.is_summit(margin as int, radius as int, floor as int));
        let all = all_of(self.level.len());
        sift(&all, &keep)
    }

    fn levels_of(&self, pool: &Vec<usize>) -> (r: Vec<Rank>)
        requires
            crate::selection::all_below(pool@, self.n() as int),
        ensures
            r@ == self.levels(pool@),
    {
        let mut r: Vec<Rank> = Vec::new();
        let mut k: usize = 0;
        while k < pool.len()
            invariant
                crate::selection::all_below(pool@, self.n() as int),
                0 <= k <= pool@.len(),
                r@ == self.levels(pool@.take(k as int)),
            decreases pool@.len() - k,
        {
            r.push(self.level[pool[k]]);
            k = k + 1;
        }
        assert(pool@.take(k as int) == pool@);
        r
    }

    /// The highest cell inside a margin, the first among equals, if there is
    /// any cell inside it.
    pub fn peak(&self, margin: u32) -> (r: Option<usize>)
        requires
            self.well_formed(),
        ensures
            r is None <==> forall|i: int| 0 <= i < self.n() ==> !self.inside(margin as int, i),
            r matches Some(p) ==> {
                &&& p < self.n()
                &&& self.inside(margin as int, p as int)
                &&& forall|i: int|
                    0 <= i < self.n() && #[trigger] self.inside(margin as int, i) ==> self.level@[i]
                        <= self.level@[p as int] && (i < p ==> self.level@[i]
                        < self.level@[p as int])
            },
    {
        let mut best: Option<usize> = None;
        let mut i: usize = 0;
        while i < self.level.len()
            invariant
                self.well_formed(),
                0 <= i <= self.n(),
                best is None ==> forall|j: int| 0 <= j < i ==> !self.inside(margin as int, j),
                best matches Some(p) ==> {
                    &&& p < i
                    &&& self.inside(margin as int, p as int)
                    &&& forall|j: int|
                        0 <= j < i && #[trigger] self.inside(margin as int, j) ==> self.level@[j]
                            <= self.level@[p as int] && (j < p ==> self.level@[j]
                            < self.level@[p as int])
                },
            decreases self.n() - i,
        {
            if self.keeps_margin(margin, i) {
                let higher: bool = match best {
                    Some(p) => self.level[i] > self.level[p],
                    None => true,
                };
                if higher {
                    best = Some(i);
                }
            }
            i = i + 1;
        }
        best
    }

    /// The highest of some cells, highest first.
    pub fn highest(&self, pool: &Vec<usize>, limit: usize) -> (r: Vec<usize>)
        requires
            crate::selection::all_below(pool@, self.n() as int),
        ensures
            r@ == self.highest_of(pool@, limit as int),
            crate::selection::all_below(r@, self.n() as int),
    {
        let order = ranked(self.levels_of(pool).as_slice());
        let n: usize = if limit <= order.len() {
            limit
        } else {
            order.len()
        };
        let mut r: Vec<usize> = Vec::new();
        let mut k: usize = 0;
        while k < n
            invariant
                crate::selection::all_below(pool@, self.n() as int),
                crate::selection::all_below(r@, self.n() as int),
                0 <= k <= n <= order@.len(),
                order@.len() == pool@.len(),
                forall|m: int| 0 <= m < order@.len() ==> #[trigger] order@[m] < pool@.len(),
                r@ == crate::blocks::named(pool@, order@.take(k as int)),
            decreases n - k,
        {
            r.push(pool[order[k]]);
            k = k + 1;
        }
        r
    }

    /// The highest of some cells, highest first, none crowding a higher one.
    pub fn spread_out(&self, pool: &Vec<usize>, limit: usize, gap2: u32) -> (r: Vec<usize>)
        requires
            self.well_formed(),
            crate::selection::all_below(pool@, self.n() as int),
        ensures
            r@ == self.apart_of(pool@, limit as int, gap2 as int),
            crate::selection::all_below(r@, self.n() as int),
    {
        let mut spots: Vec<Spot> = Vec::new();
        let mut k: usize = 0;
        while k < pool.len()
            invariant
                self.well_formed(),
                crate::selection::all_below(pool@, self.n() as int),
                0 <= k <= pool@.len(),
                spots@ == self.spots(pool@.take(k as int)),
            decreases pool@.len() - k,
        {
            let i: usize = pool[k];
            proof {
                self.lemma_cell(i as int);
            }
            let x: usize = i % self.w as usize;
            let y: usize = i / self.w as usize;
            spots.push((x as u32, y as u32));
            k = k + 1;
        }
        assert(pool@.take(k as int) == pool@);
        let order = ranked(self.levels_of(pool).as_slice());
        let kept = thin(&spots, &order, limit, gap2);
        proof {
            lemma_thinned_are_listed(
                spots@,
                order@,
                limit as int,
                gap2 as int,
                order@.len() as int,
                pool@.len() as int,
            );
        }
        let mut r: Vec<usize> = Vec::new();
        let mut m: usize = 0;
        while m < kept.len()
            invariant
                crate::selection::all_below(pool@, self.n() as int),
                crate::selection::all_below(kept@, pool@.len() as int),
                0 <= m <= kept@.len(),
                r@ == crate::blocks::named(pool@, kept@.take(m as int)),
                crate::selection::all_below(r@, self.n() as int),
            decreases kept@.len() - m,
        {
            r.push(pool[kept[m]]);
            m = m + 1;
        }
        assert(kept@.take(m as int) == kept@);
        r
    }

    /// The column and row of a cell.
    pub fn place(&self, i: usize) -> (r: Spot)
        requires
            self.well_formed(),
            i < self.n(),
        ensures
            r.0 == self.x_of(i as int),
            r.1 == self.y_of(i as int),
            r.0 < self.w,
            r.1 < self.h,
    {
        proof {
            self.lemma_cell(i as int);
        }
        let x: usize = i % self.w as usize;
        let y: usize = i / self.w as usize;
        (x as u32, y as u32)
    }
}

proof fn lemma_thinned_are_listed(
    spots: Seq<Spot>,
    order: Seq<usize>,
    limit: int,
    gap2: int,
    upto: int,
    n: int,
)
    requires
        0 <= upto <= order.len(),
        forall|m: int| 0 <= m < order.len() ==> #[trigger] order[m] < n,
    ensures
        crate::selection::all_below(crate::ranking::thinned(spots, order, limit, gap2, upto), n),
    decreases upto,
{
    if upto > 0 {
        lemma_thinned_are_listed(spots, order, limit, gap2, upto - 1, n);
        assert(order[upto - 1] < n);
    }
}

/// The peak of the saliency map, away from its border: the first of the highest
/// cells.
pub fn saliency_peak(map: &LevelMap) -> (r: Spot)
    requires
        map.well_formed(),
        map.w == SAL_N,
        map.h == SAL_N,
    ensures
        SAL_P <= r.0 < SAL_N - SAL_P,
        SAL_P <= r.1 < SAL_N - SAL_P,
        6 <= r.0 < 58,
        6 <= r.1 < 58,
        forall|i: int|
            0 <= i < map.n() && #[trigger] map.inside(SAL_P as int, i) ==> map.level@[i]
                <= map.level_at(r.0 as int, r.1 as int) && (i < r.1 * SAL_N + r.0 ==> map.level@[i]
                < map.level_at(r.0 as int, r.1 as int)),
{
    match map.peak(SAL_P) {
        Some(p) => {
            proof {
                map.lemma_cell(p as int);
            }
            map.place(p)
        },
        None => {
            proof {
                let i: int = 390;
                assert(map.n() == 64 * 64);
                assert(i % 64 == 6 && i / 64 == 6);
                assert(map.inside(SAL_P as int, i));
            }
            (SAL_P, SAL_P)
        },
    }
}

/// The saliency map's highest summits away from its border, highest first and
/// no two closer than ten cells.
pub fn saliency_top_peaks(map: &LevelMap, n: usize) -> (r: Vec<usize>)
    requires
        map.well_formed(),
    ensures
        r@ == map.apart_of(
            map.summits(SAL_P as int, 1, i32::MIN as int),
            n as int,
            SAL_GAP2 as int,
        ),
        crate::selection::all_below(r@, map.n() as int),
{
    let pool = map.find_summits(SAL_P, 1, i32::MIN);
    map.spread_out(&pool, n, SAL_GAP2)
}

/// The highest summits of a radial-symmetry map, highest first.
pub fn radial_peaks(map: &LevelMap, n: usize) -> (r: Vec<usize>)
    requires
        map.well_formed(),
    ensures
        r@ == map.highest_of(map.summits(2, 2, AT_015 as int), n as int),
        crate::selection::all_below(r@, map.n() as int),
{
    let pool = map.find_summits(2, 2, AT_015);
    map.highest(&pool, n)
}

/// The top peaks of a map are distinct places, highest first: no more than were
/// asked for, each a summit away from the border, and no two closer than ten
/// cells.
pub proof fn top_peaks_are_distinct_places(map: LevelMap, n: int, a: int, b: int)
    requires
        map.well_formed(),
        map.n() <= usize::MAX,
        0 <= n,
        ({
            let r = map.apart_of(map.summits(SAL_P as int, 1, i32::MIN as int), n, SAL_GAP2 as int);
            0 <= a < b < r.len()
        }),
    ensures
        ({
            let r = map.apart_of(map.summits(SAL_P as int, 1, i32::MIN as int), n, SAL_GAP2 as int);
            &&& r.len() <= n
            &&& map.is_summit(SAL_P as int, 1, i32::MIN as int)[r[a] as int]
            &&& map.is_summit(SAL_P as int, 1, i32::MIN as int)[r[b] as int]
            &&& map.level@[r[b] as int] <= map.level@[r[a] as int]
            &&& crate::ranking::distance2(map.spots(r)[a], map.spots(r)[b]) >= SAL_GAP2
        }),
{
    let flags = map.is_summit(SAL_P as int, 1, i32::MIN as int);
    let all = crate::selection::every(map.n());
    let pool = map.summits(SAL_P as int, 1, i32::MIN as int);
    let levels = map.levels(pool);
    let spots = map.spots(pool);
    let order = crate::ranking::order_of(levels);
    let gap2 = SAL_GAP2 as int;
    let upto = pool.len() as int;
    let kept = crate::ranking::thinned(spots, order, n, gap2, upto);
    let r = map.apart_of(pool, n, gap2);
    crate::selection::sifting_keeps_the_flagged(all, flags, 0);
    crate::ranking::an_order_exists(levels);
    crate::ranking::thinned_points_stand_apart(spots, order, n, gap2, upto);
    crate::ranking::thinning_keeps_the_order(levels, spots, order, n, gap2, upto);
    lemma_thinned_are_listed(spots, order, n, gap2, upto, upto);
    assert(kept[a] < upto && kept[b] < upto);
    assert(pool.contains(r[a]) && pool.contains(r[b]));
    crate::selection::sifting_keeps_the_flagged(all, flags, r[a]);
    crate::selection::sifting_keeps_the_flagged(all, flags, r[b]);
    assert(crate::ranking::ahead(levels, kept[a] as int, kept[b] as int));
}

/// The distance of a cell of the saliency map from its border.
pub open spec fn border_distance(x: int, y: int) -> int {
    crate::grid::least(
        crate::grid::least(x, y),
        crate::grid::least(SAL_N - 1 - x, SAL_N - 1 - y),
    )
}

/// By how many thirds a cell near the border of the saliency map is weakened,
/// if it is.
pub fn damping(x: u32, y: u32) -> (r: Option<u32>)
    requires
        x < SAL_N,
        y < SAL_N,
    ensures
        r is Some <==> border_distance(x as int, y as int) < SAL_M,
        r matches Some(d) ==> d == border_distance(x as int, y as int),
        r is None <==> 3 <= x <= 60 && 3 <= y <= 60,
        r matches Some(d) ==> d <= x && d <= y && d <= 63 - x && d <= 63 - y && (d == x || d == y || d
            == 63 - x || d == 63 - y),
{
    let far_x: u32 = SAL_N - 1 - x;
    let far_y: u32 = SAL_N - 1 - y;
    let near: u32 = if x <= y {
        x
    } else {
        y
    };
    let far: u32 = if far_x <= far_y {
        far_x
    } else {
        far_y
    };
    let d: u32 = if near <= far {
        near
    } else {
        far
    };
    if d < SAL_M {
        Some(d)
    } else {
        None
    }
}

/// Whether a cell is next to a cell or the cell itself.
pub open spec fn touching(x: int, y: int, i: int) -> bool {
    let cx = i % SAL_N as int;
    let cy = i / SAL_N as int;
    x - 1 <= cx <= x + 1 && y - 1 <= cy <= y + 1
}

/// The cells of the saliency map around a cell and the cell itself, row by row.
pub fn neighbours(x: u32, y: u32) -> (r: Vec<usize>)
    requires
        x < SAL_N,
        y < SAL_N,
    ensures
        forall|k: int|
            0 <= k < r@.len() ==> #[trigger] r@[k] < SAL_N * SAL_N && touching(
                x as int,
                y as int,
                r@[k] as int,
            ),
        forall|k: int, l: int| 0 <= k < l < r@.len() ==> r@[k] < r@[l],
        forall|i: usize|
            i < SAL_N * SAL_N && #[trigger] touching(x as int, y as int, i as int) ==> r@.contains(i),
{
    let x0: u32 = if x > 0 {
        x - 1
    } else {
        0
    };
    let y0: u32 = if y > 0 {
        y - 1
    } else {
        0
    };
    let x1: u32 = if x + 1 < SAL_N {
        x + 2
    } else {
        SAL_N
    };
    let y1: u32 = if y + 1 < SAL_N {
        y + 2
    } else {
        SAL_N
    };
    let mut r: Vec<usize> = Vec::new();
    let mut yy: u32 = y0;
    while yy < y1
        invariant
            x0 <= x < x1 <= SAL_N,
            y0 <= yy <= y1 <= SAL_N,
            x0 == if x > 0 { x - 1 } else { 0 },
            y0 == if y > 0 { y - 1 } else { 0 },
            x1 == if x + 1 < SAL_N { x + 2 } else { SAL_N as int },
            y1 == if y + 1 < SAL_N { y + 2 } else { SAL_N as int },
            forall|k: int|
                0 <= k < r@.len() ==> #[trigger] r@[k] < yy * SAL_N && touching(
                    x as int,
                    y as int,
                    r@[k] as int,
                ),
            forall|k: int, l: int| 0 <= k < l < r@.len() ==> r@[k] < r@[l],
            forall|i: usize|
                i < yy * SAL_N && #[trigger] touching(x as int, y as int, i as int)
                    ==> r@.contains(i),
        decreases y1 - yy,
    {
        let mut xx: u32 = x0;
        while xx < x1
            invariant
                x0 <= x < x1 <= SAL_N,
                y0 <= yy < y1 <= SAL_N,
                x0 <= xx <= x1,
                x0 == if x > 0 { x - 1 } else { 0 },
                y0 == if y > 0 { y - 1 } else { 0 },
                x1 == if x + 1 < SAL_N { x + 2 } else { SAL_N as int },
                y1 == if y + 1 < SAL_N { y + 2 } else { SAL_N as int },
                forall|k: int|
                    0 <= k < r@.len() ==> #[trigger] r@[k] < yy * SAL_N + xx && touching(
                        x as int,
                        y as int,
                        r@[k] as int,
                    ),
                forall|k: int, l: int| 0 <= k < l < r@.len() ==> r@[k] < r@[l],
                forall|i: usize|
                    i < yy * SAL_N + xx && #[trigger] touching(x as int, y as int, i as int)
                        ==> r@.contains(i),
            decreases x1 - xx,
        {
            let ghost before = r@;
            let i: usize = (yy * SAL_N + xx) as usize;
            assert(i as int % 64 == xx && i as int / 64 == yy);
            r.push(i);
            proof {
                assert forall|j: usize|
                    j < yy * SAL_N + xx + 1 && #[trigger] touching(
                        x as int,
                        y as int,
                        j as int,
                    ) implies r@.contains(j) by {
                    if j < i {
                        let k = choose|k: int| 0 <= k < before.len() && before[k] == j;
                        assert(r@[k] == j);
                    } else {
                        assert(r@[before.len() as int] == j);
                    }
                }
            }
            xx = xx + 1;
        }
        yy = yy + 1;
    }
    r
}

/// A cell keeps a margin if it is that far from each border: in a column and row,
/// the margin from the first and from behind the last.
pub proof fn margins_are_kept_on_all_sides(map: LevelMap, margin: int, x: int, y: int)
    requires
        map.well_formed(),
        0 <= x < map.w,
        0 <= y < map.h,
    ensures
        map.inside(margin, y * map.w + x) <==> margin <= x && x + margin < map.w && margin <= y && y
            + margin < map.h,
        map.x_of(y * map.w + x) == x,
        map.y_of(y * map.w + x) == y,
        map.level_at(x, y) == map.level@[y * map.w + x],
{
    vstd::arithmetic::div_mod::lemma_fundamental_div_mod_converse(
        y * map.w + x,
        map.w as int,
        y,
        x,
    );
}

/// A summit keeps the margin, reaches the floor, and no cell within the radius in
/// both ways is above it; every such cell is a summit.
pub proof fn summits_top_their_window(
    map: LevelMap,
    margin: int,
    radius: int,
    floor: int,
    x: int,
    y: int,
    i: usize,
)
    requires
        map.well_formed(),
        map.n() <= usize::MAX,
        0 <= x < map.w,
        0 <= y < map.h,
        i == y * map.w + x,
    ensures
        map.summits(margin, radius, floor).contains(i) ==> margin <= x && x + margin < map.w && margin
            <= y && y + margin < map.h && map.level@[i as int] >= floor,
        map.summits(margin, radius, floor).contains(i) ==> forall|a: int, b: int|
            x - radius <= a <= x + radius && y - radius <= b <= y + radius
                ==> #[trigger] map.level_at(a, b) <= map.level_at(x, y),
        margin <= x && x + margin < map.w && margin <= y && y + margin < map.h && map.level@[i as int]
            >= floor && (forall|a: int, b: int|
            x - radius <= a <= x + radius && y - radius <= b <= y + radius
                ==> #[trigger] map.level_at(a, b) <= map.level_at(x, y)) ==> map.summits(
            margin,
            radius,
            floor,
        ).contains(i),
{
    margins_are_kept_on_all_sides(map, margin, x, y);
    map.lemma_place(x, y);
    let all = crate::selection::every(map.n());
    assert(all[i as int] == i);
    crate::selection::sifting_keeps_the_flagged(all, map.is_summit(margin, radius, floor), i);
}

/// The highest of some cells are as many as were asked for or as there are, highest
/// first, and none that is left out is higher than one that is not.
pub proof fn the_highest_come_first(map: LevelMap, pool: Seq<usize>, limit: int, a: int, b: int, k: int)
    requires
        pool.len() <= usize::MAX,
        0 <= limit,
        0 <= a < b < map.highest_of(pool, limit).len(),
        0 <= k < pool.len(),
    ensures
        limit <= pool.len() ==> map.highest_of(pool, limit).len() == limit,
        limit >= pool.len() ==> map.highest_of(pool, limit).len() == pool.len(),
        map.level@[map.highest_of(pool, limit)[b] as int] <= map.level@[map.highest_of(
            pool,
            limit,
        )[a] as int],
        map.highest_of(pool, limit).contains(pool[k]) || map.level@[pool[k] as int]
            <= map.level@[map.highest_of(pool, limit)[b] as int],
        pool.contains(map.highest_of(pool, limit)[a]),
{
    let levels = map.levels(pool);
    let order = crate::ranking::order_of(levels);
    crate::ranking::an_order_exists(levels);
    let n = crate::grid::least(limit, order.len() as int);
    let r = map.highest_of(pool, limit);
    assert(r.len() == n);
    assert(crate::ranking::ahead(levels, order[a] as int, order[b] as int));
    assert(order[a] < levels.len() && order[b] < levels.len());
    assert(r[a] == pool[order[a] as int] && r[b] == pool[order[b] as int]);
    assert(order.contains(k as usize));
    let m = choose|m: int| 0 <= m < order.len() && order[m] == k as usize;
    if m < n {
        assert(r[m] == pool[k]);
    } else {
        assert(crate::ranking::ahead(levels, order[b] as int, order[m] as int));
    }
}

/// The saliency map's top peaks keep six cells from its border and ten from each
/// other, and no peak is left out while fewer than were asked for are kept, unless
/// one that is kept is closer to it than that.
pub proof fn top_peaks_are_left_out_for_a_reason(map: LevelMap, n: int, k: int)
    requires
        map.well_formed(),
        map.n() <= usize::MAX,
        0 <= n,
        0 <= k < map.summits(6, 1, i32::MIN as int).len(),
        map.apart_of(map.summits(6, 1, i32::MIN as int), n, 100).len() < n,
    ensures
        ({
            let pool = map.summits(6, 1, i32::MIN as int);
            let r = map.apart_of(pool, n, 100);
            r.contains(pool[k]) || exists|a: int|
                0 <= a < r.len() && ({
                    let p = #[trigger] r[a] as int;
                    let q = pool[k] as int;
                    let dx = map.x_of(p) as u32 - map.x_of(q) as u32;
                    let dy = map.y_of(p) as u32 - map.y_of(q) as u32;
                    dx * dx + dy * dy < 100
                })
        }),
{
    let pool = map.summits(6, 1, i32::MIN as int);
    let all = crate::selection::every(map.n());
    crate::selection::sifting_keeps_the_flagged(all, map.is_summit(6, 1, i32::MIN as int), 0);
    let levels = map.levels(pool);
    let spots = map.spots(pool);
    let order = crate::ranking::order_of(levels);
    let upto = pool.len() as int;
    crate::ranking::an_order_exists(levels);
    let kept = crate::ranking::thinned(spots, order, n, 100, upto);
    let r = map.apart_of(pool, n, 100);
    lemma_thinned_are_listed(spots, order, n, 100, upto, upto);
    assert(order.contains(k as usize));
    let m = choose|m: int| 0 <= m < order.len() && order[m] == k as usize;
    crate::ranking::thinning_drops_only_crowded_points(spots, order, n, 100, upto, m);
    if kept.contains(order[m]) {
        let a = choose|a: int| 0 <= a < kept.len() && kept[a] == order[m];
        assert(r[a] == pool[k]);
    } else {
        let a = choose|a: int|
            0 <= a < kept.len() && crate::ranking::distance2(
                spots[#[trigger] kept[a] as int],
                spots[order[m] as int],
            ) < 100;
        assert(kept[a] < upto);
        assert(r[a] == pool[kept[a] as int]);
    }
}

/// A cell of the saliency map is as far from its border as from the nearest of its
/// four sides.
pub proof fn borders_are_the_nearest_side(x: int, y: int)
    ensures
        border_distance(x, y) <= x && border_distance(x, y) <= y,
        border_distance(x, y) <= 63 - x && border_distance(x, y) <= 63 - y,
        border_distance(x, y) == x || border_distance(x, y) == y || border_distance(x, y) == 63 - x
            || border_distance(x, y) == 63 - y,
        border_distance(x, y) == border_distance(y, x),
        border_distance(x, y) == border_distance(63 - x, y),
{
}

/// Cells touch if they are at most one apart in both ways.
pub proof fn touching_cells_are_one_apart(x: int, y: int, cx: int, cy: int)
    requires
        0 <= cx < 64,
        0 <= cy < 64,
    ensures
        touching(x, y, cy * 64 + cx) <==> -1 <= cx - x <= 1 && -1 <= cy - y <= 1,
{
    vstd::arithmetic::div_mod::lemma_fundamental_div_mod_converse(cy * 64 + cx, 64, cy, cx);
}

} // verus!
