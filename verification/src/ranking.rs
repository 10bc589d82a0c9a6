//! Picking and ordering measurements: extremes with their tie rules, the
//! strongest-first order, and the thinning of points that crowd each other.

use crate::rank::Rank;
use vstd::prelude::*;

verus! {

/// Whether measurement `i` comes ahead of measurement `j`: it is stronger, or
/// as strong and listed first.
pub open spec fn ahead(v: Seq<Rank>, i: int, j: int) -> bool {
    v[i] > v[j] || (v[i] == v[j] && i < j)
}

/// Whether a list of positions goes from the strongest measurement to the
/// weakest, the first listed ahead among equals.
pub open spec fn strongest_first(v: Seq<Rank>, order: Seq<usize>) -> bool {
    forall|a: int, b: int|
        0 <= a < b < order.len() ==> ahead(v, #[trigger] order[a] as int, #[trigger] order[b] as int)
}

/// Whether a list holds every position once, from the strongest measurement to
/// the weakest.
pub open spec fn is_order(v: Seq<Rank>, order: Seq<usize>) -> bool {
    &&& order.len() == v.len()
    &&& strongest_first(v, order)
    &&& forall|m: int| 0 <= m < order.len() ==> #[trigger] order[m] < v.len()
    &&& forall|k: usize| k < v.len() ==> order.contains(k)
}

/// The positions from the strongest measurement to the weakest.
pub open spec fn order_of(v: Seq<Rank>) -> Seq<usize> {
    choose|order: Seq<usize>| is_order(v, order)
}

/// The strongest measurement, or zero where none is positive.
pub open spec fn peak_of(v: Seq<Rank>) -> int
    decreases v.len(),
{
    if v.len() == 0 {
        0
    } else {
        crate::rank::max_rank(peak_of(v.drop_last()), v.last() as int)
    }
}

/// Whether `i` is the last of the strongest measurements.
pub open spec fn is_last_max(v: Seq<Rank>, i: int) -> bool {
    &&& 0 <= i < v.len()
    &&& forall|j: int| 0 <= j < v.len() ==> v[j] <= v[i]
    &&& forall|j: int| i < j < v.len() ==> v[j] < v[i]
}

/// Whether `i` is the first of the strongest measurements.
pub open spec fn is_first_max(v: Seq<Rank>, i: int) -> bool {
    &&& 0 <= i < v.len()
    &&& forall|j: int| 0 <= j < v.len() ==> v[j] <= v[i]
    &&& forall|j: int| 0 <= j < i ==> v[j] < v[i]
}

/// The last of the strongest measurements, if there is any measurement.
pub fn last_max(v: &[Rank]) -> (r: Option<usize>)
    ensures
        r is None <==> v@.len() == 0,
        r matches Some(i) ==> is_last_max(v@, i as int),
{
    if v.len() == 0 {
        return None;
    }
    let mut best: usize = 0;
    let mut k: usize = 1;
    while k < v.len()
        invariant
            0 <= best < k <= v@.len(),
            is_last_max(v@.take(k as int), best as int),
        decreases v@.len() - k,
    {
        let ghost before = v@.take(k as int);
        if v[k] >= v[best] {
            best = k;
        }
        k = k + 1;
        assert(v@.take(k as int) == before.push(v@[k - 1]));
    }
    assert(v@.take(k as int) == v@);
    Some(best)
}

/// The first of the strongest measurements, if any is above the floor.
pub fn first_max_above(v: &[Rank], floor: Rank) -> (r: Option<usize>)
    ensures
        r is None <==> forall|j: int| 0 <= j < v@.len() ==> v@[j] <= floor,
        r matches Some(i) ==> v@[i as int] > floor && is_first_max(v@, i as int),
{
    let mut best: Option<usize> = None;
    let mut k: usize = 0;
    while k < v.len()
        invariant
            0 <= k <= v@.len(),
            best is None ==> forall|j: int| 0 <= j < k ==> v@[j] <= floor,
            best matches Some(i) ==> v@[i as int] > floor && is_first_max(
                v@.take(k as int),
                i as int,
            ),
        decreases v@.len() - k,
    {
        let ghost before = v@.take(k as int);
        let higher = match best {
            Some(i) => v[k] > v[i],
            None => v[k] > floor,
        };
        if higher {
            best = Some(k);
        }
        k = k + 1;
        assert(v@.take(k as int) == before.push(v@[k - 1]));
    }
    assert(v@.take(k as int) == v@);
    best
}

/// The strongest measurement, or zero where none is positive.
pub fn strongest(v: &[Rank]) -> (r: Rank)
    ensures
        r == peak_of(v@),
        r >= 0,
        forall|j: int| 0 <= j < v@.len() ==> v@[j] <= r,
        r == 0 || v@.contains(r),
{
    let mut best: Rank = 0;
    let mut k: usize = 0;
    while k < v.len()
        invariant
            0 <= k <= v@.len(),
            best == peak_of(v@.take(k as int)),
            best >= 0,
            forall|j: int| 0 <= j < k ==> v@[j] <= best,
            best == 0 || v@.contains(best),
        decreases v@.len() - k,
    {
        if v[k] > best {
            best = v[k];
        }
        k = k + 1;
        assert(v@.take(k as int).drop_last() == v@.take(k - 1));
    }
    assert(v@.take(k as int) == v@);
    best
}

/// Merges two strongest-first runs of positions, all of the first run listed
/// before all of the second.
fn merge(v: &[Rank], a: &Vec<usize>, b: &Vec<usize>, Ghost(lo): Ghost<int>, Ghost(mid): Ghost<int>, Ghost(hi): Ghost<int>) -> (r: Vec<usize>)
    requires
        0 <= lo <= mid <= hi <= v@.len(),
        a@.len() + b@.len() <= usize::MAX,
        strongest_first(v@, a@),
        strongest_first(v@, b@),
        forall|p: int| 0 <= p < a@.len() ==> lo <= #[trigger] a@[p] < mid,
        forall|q: int| 0 <= q < b@.len() ==> mid <= #[trigger] b@[q] < hi,
    ensures
        r@.len() == a@.len() + b@.len(),
        strongest_first(v@, r@),
        forall|m: int| 0 <= m < r@.len() ==> lo <= #[trigger] r@[m] < hi,
        forall|p: int| 0 <= p < a@.len() ==> r@.contains(#[trigger] a@[p]),
        forall|q: int| 0 <= q < b@.len() ==> r@.contains(#[trigger] b@[q]),
{
    let mut out: Vec<usize> = Vec::new();
    let mut i: usize = 0;
    let mut j: usize = 0;
    while i < a.len() || j < b.len()
        invariant
            0 <= lo <= mid <= hi <= v@.len(),
            a@.len() + b@.len() <= usize::MAX,
            strongest_first(v@, a@),
            strongest_first(v@, b@),
            forall|p: int| 0 <= p < a@.len() ==> lo <= #[trigger] a@[p] < mid,
            forall|q: int| 0 <= q < b@.len() ==> mid <= #[trigger] b@[q] < hi,
            i <= a@.len(),
            j <= b@.len(),
            out@.len() == i + j,
            strongest_first(v@, out@),
            forall|m: int| 0 <= m < out@.len() ==> lo <= #[trigger] out@[m] < hi,
            forall|m: int, p: int|
                0 <= m < out@.len() && i <= p < a@.len() ==> ahead(
                    v@,
                    #[trigger] out@[m] as int,
                    #[trigger] a@[p] as int,
                ),
            forall|m: int, q: int|
                0 <= m < out@.len() && j <= q < b@.len() ==> ahead(
                    v@,
                    #[trigger] out@[m] as int,
                    #[trigger] b@[q] as int,
                ),
            forall|p: int| 0 <= p < i ==> out@.contains(#[trigger] a@[p]),
            forall|q: int| 0 <= q < j ==> out@.contains(#[trigger] b@[q]),
        decreases a@.len() + b@.len() - i - j,
    {
        broadcast use vstd::seq_lib::group_seq_properties;

        let from_a = i < a.len() && (j >= b.len() || v[a[i]] >= v[b[j]]);
        let ghost before = out@;
        if from_a {
            out.push(a[i]);
            proof {
                assert(out@.contains(a@[i as int])) by {
                    assert(out@[out@.len() - 1] == a@[i as int]);
                }
            }
            i = i + 1;
        } else {
            out.push(b[j]);
            proof {
                assert(out@.contains(b@[j as int])) by {
                    assert(out@[out@.len() - 1] == b@[j as int]);
                }
            }
            j = j + 1;
        }
        assert forall|p: int| 0 <= p < i implies out@.contains(#[trigger] a@[p]) by {
            if before.contains(a@[p]) {
                let m = choose|m: int| 0 <= m < before.len() && before[m] == a@[p];
                assert(out@[m] == a@[p]);
            }
        }
        assert forall|q: int| 0 <= q < j implies out@.contains(#[trigger] b@[q]) by {
            if before.contains(b@[q]) {
                let m = choose|m: int| 0 <= m < before.len() && before[m] == b@[q];
                assert(out@[m] == b@[q]);
            }
        }
    }
    out
}

fn rank_range(v: &[Rank], lo: usize, hi: usize) -> (r: Vec<usize>)
    requires
        lo <= hi <= v@.len(),
    ensures
        r@.len() == hi - lo,
        strongest_first(v@, r@),
        forall|m: int| 0 <= m < r@.len() ==> lo <= #[trigger] r@[m] < hi,
        forall|k: usize| lo <= k < hi ==> r@.contains(k),
    decreases hi - lo,
{
    if hi - lo <= 1 {
        let mut r: Vec<usize> = Vec::new();
        if lo < hi {
            r.push(lo);
            assert(r@[0] == lo);
        }
        return r;
    }
    let mid: usize = lo + (hi - lo) / 2;
    let a = rank_range(v, lo, mid);
    let b = rank_range(v, mid, hi);
    let r = merge(v, &a, &b, Ghost(lo as int), Ghost(mid as int), Ghost(hi as int));
    assert forall|k: usize| lo <= k < hi implies r@.contains(k) by {
        if k < mid {
            assert(a@.contains(k));
            let p = choose|p: int| 0 <= p < a@.len() && a@[p] == k;
            assert(r@.contains(a@[p]));
        } else {
            assert(b@.contains(k));
            let q = choose|q: int| 0 <= q < b@.len() && b@[q] == k;
            assert(r@.contains(b@[q]));
        }
    }
    r
}

/// All positions, from the strongest measurement to the weakest; equal
/// measurements keep the order in which they are listed.
pub fn ranked(v: &[Rank]) -> (r: Vec<usize>)
    ensures
        is_order(v@, r@),
        r@ == order_of(v@),
{
    let r = rank_range(v, 0, v.len());
    proof {
        assert(is_order(v@, r@));
        the_order_is_unique(v@, r@, order_of(v@));
    }
    r
}

/// A point in pixels or cells.
pub type Spot = (u32, u32);

/// The squared distance of two points.
pub open spec fn distance2(a: Spot, b: Spot) -> int {
    (a.0 - b.0) * (a.0 - b.0) + (a.1 - b.1) * (a.1 - b.1)
}

/// Whether a point keeps the squared distance `gap2` from all chosen ones.
pub open spec fn stands_apart(spots: Seq<Spot>, kept: Seq<usize>, c: int, gap2: int) -> bool {
    forall|k: int| 0 <= k < kept.len() ==> distance2(spots[#[trigger] kept[k] as int], spots[c]) >= gap2
}

/// What is kept of the first `upto` entries of an order when each entry joins
/// unless the limit is reached or it crowds one that joined earlier.
pub open spec fn thinned(spots: Seq<Spot>, order: Seq<usize>, limit: int, gap2: int, upto: int) -> Seq<usize>
    decreases upto,
{
    if upto <= 0 {
        Seq::empty()
    } else {
        let kept = thinned(spots, order, limit, gap2, upto - 1);
        let c = order[upto - 1];
        if kept.len() < limit && stands_apart(spots, kept, c as int, gap2) {
            kept.push(c)
        } else {
            kept
        }
    }
}

fn squared_distance(a: Spot, b: Spot) -> (r: u128)
    ensures
        r == distance2(a, b),
{
    let dx: u64 = if a.0 >= b.0 {
        (a.0 - b.0) as u64
    } else {
        (b.0 - a.0) as u64
    };
    let dy: u64 = if a.1 >= b.1 {
        (a.1 - b.1) as u64
    } else {
        (b.1 - a.1) as u64
    };
    proof {
        assert(dx * dx <= 0xffff_ffff * 0xffff_ffff) by (nonlinear_arith)
            requires
                dx <= 0xffff_ffff,
        ;
        assert(dy * dy <= 0xffff_ffff * 0xffff_ffff) by (nonlinear_arith)
            requires
                dy <= 0xffff_ffff,
        ;
        let ex: int = a.0 - b.0;
        let ey: int = a.1 - b.1;
        assert(dx * dx == ex * ex) by (nonlinear_arith)
            requires
                dx == ex || dx == -ex,
        ;
        assert(dy * dy == ey * ey) by (nonlinear_arith)
            requires
                dy == ey || dy == -ey,
        ;
    }
    (dx as u128) * (dx as u128) + (dy as u128) * (dy as u128)
}

/// Thins an order of points: the entries are taken in turn, and one joins
/// while fewer than `limit` have and it keeps the squared distance `gap2` from
/// all that have.
pub fn thin(spots: &Vec<Spot>, order: &Vec<usize>, limit: usize, gap2: u32) -> (r: Vec<usize>)
    requires
        forall|m: int| 0 <= m < order@.len() ==> #[trigger] order@[m] < spots@.len(),
    ensures
        r@ == thinned(spots@, order@, limit as int, gap2 as int, order@.len() as int),
{
    let mut kept: Vec<usize> = Vec::new();
    let mut m: usize = 0;
    while m < order.len()
        invariant
            0 <= m <= order@.len(),
            forall|m: int| 0 <= m < order@.len() ==> #[trigger] order@[m] < spots@.len(),
            kept@ == thinned(spots@, order@, limit as int, gap2 as int, m as int),
            forall|k: int| 0 <= k < kept@.len() ==> #[trigger] kept@[k] < spots@.len(),
        decreases order@.len() - m,
    {
        let c = order[m];
        let mut apart = true;
        let mut k: usize = 0;
        while k < kept.len()
            invariant
                0 <= k <= kept@.len(),
                c < spots@.len(),
                forall|k: int| 0 <= k < kept@.len() ==> #[trigger] kept@[k] < spots@.len(),
                apart <==> forall|i: int|
                    0 <= i < k ==> distance2(
                        spots@[#[trigger] kept@[i] as int],
                        spots@[c as int],
                    ) >= gap2,
            decreases kept@.len() - k,
        {
            if squared_distance(spots[kept[k]], spots[c]) < gap2 as u128 {
                apart = false;
            }
            k = k + 1;
        }
        if kept.len() < limit && apart {
            kept.push(c);
        }
        m = m + 1;
    }
    kept
}

/// What thinning keeps: never more than the limit, all of it from the order,
/// and any two of it at least the gap apart.
pub proof fn thinned_points_stand_apart(spots: Seq<Spot>, order: Seq<usize>, limit: int, gap2: int, upto: int)
    requires
        0 <= limit,
        0 <= upto <= order.len(),
    ensures
        ({
            let kept = thinned(spots, order, limit, gap2, upto);
            &&& kept.len() <= limit
            &&& forall|a: int| 0 <= a < kept.len() ==> order.take(upto).contains(#[trigger] kept[a])
            &&& forall|a: int, b: int|
                0 <= a < b < kept.len() ==> distance2(
                    spots[#[trigger] kept[a] as int],
                    spots[#[trigger] kept[b] as int],
                ) >= gap2
        }),
    decreases upto,
{
    if upto > 0 {
        thinned_points_stand_apart(spots, order, limit, gap2, upto - 1);
        let prev = thinned(spots, order, limit, gap2, upto - 1);
        let kept = thinned(spots, order, limit, gap2, upto);
        assert forall|a: int| 0 <= a < kept.len() implies order.take(upto).contains(
            #[trigger] kept[a],
        ) by {
            if a < prev.len() {
                assert(prev[a] == kept[a]);
                assert(order.take(upto - 1).contains(prev[a]));
                let shorter = order.take(upto - 1);
                let m = choose|m: int| 0 <= m < shorter.len() && shorter[m] == prev[a];
                assert(order.take(upto)[m] == kept[a]);
            } else {
                assert(order.take(upto)[upto - 1] == kept[a]);
            }
        }
    }
}

/// Thinning keeps the strongest first.
pub proof fn thinning_keeps_the_order(
    v: Seq<Rank>,
    spots: Seq<Spot>,
    order: Seq<usize>,
    limit: int,
    gap2: int,
    upto: int,
)
    requires
        0 <= limit,
        0 <= upto <= order.len(),
        strongest_first(v, order),
    ensures
        strongest_first(v, thinned(spots, order, limit, gap2, upto)),
    decreases upto,
{
    if upto > 0 {
        thinning_keeps_the_order(v, spots, order, limit, gap2, upto - 1);
        thinned_points_stand_apart(spots, order, limit, gap2, upto - 1);
        let prev = thinned(spots, order, limit, gap2, upto - 1);
        let kept = thinned(spots, order, limit, gap2, upto);
        assert forall|a: int, b: int| 0 <= a < b < kept.len() implies ahead(
            v,
            #[trigger] kept[a] as int,
            #[trigger] kept[b] as int,
        ) by {
            assert(kept[a] == prev[a]);
            if b < prev.len() {
                assert(kept[b] == prev[b]);
            } else {
                let earlier = order.take(upto - 1);
                assert(earlier.contains(prev[a]));
                let m = choose|m: int| 0 <= m < earlier.len() && earlier[m] == prev[a];
                assert(ahead(v, order[m] as int, order[upto - 1] as int));
            }
        }
    }
}

/// What thinning drops: while the limit is not reached, an entry of the order
/// is left out only when one taken earlier lies closer than the gap.
pub proof fn thinning_drops_only_crowded_points(spots: Seq<Spot>, order: Seq<usize>, limit: int, gap2: int, upto: int, m: int)
    requires
        0 <= m < upto <= order.len(),
        thinned(spots, order, limit, gap2, upto).len() < limit,
    ensures
        ({
            let kept = thinned(spots, order, limit, gap2, upto);
            kept.contains(order[m]) || exists|a: int|
                0 <= a < kept.len() && distance2(
                    spots[#[trigger] kept[a] as int],
                    spots[order[m] as int],
                ) < gap2
        }),
    decreases upto,
{
    let prev = thinned(spots, order, limit, gap2, upto - 1);
    let kept = thinned(spots, order, limit, gap2, upto);
    if m < upto - 1 {
        thinning_drops_only_crowded_points(spots, order, limit, gap2, upto - 1, m);
        if prev.contains(order[m]) {
            let a = choose|a: int| 0 <= a < prev.len() && prev[a] == order[m];
            assert(kept[a] == order[m]);
        } else {
            let a = choose|a: int|
                0 <= a < prev.len() && distance2(
                    spots[#[trigger] prev[a] as int],
                    spots[order[m] as int],
                ) < gap2;
            assert(kept[a] == prev[a]);
        }
    } else if stands_apart(spots, prev, order[m] as int, gap2) {
        assert(kept[kept.len() - 1] == order[m]);
    } else {
        let a = choose|a: int|
            0 <= a < prev.len() && distance2(
                spots[#[trigger] prev[a] as int],
                spots[order[m] as int],
            ) < gap2;
        assert(kept[a] == prev[a]);
    }
}

/// Two strongest-first lists of the same positions are equal.
proof fn lemma_same_positions_same_order(v: Seq<Rank>, a: Seq<usize>, b: Seq<usize>)
    requires
        a.len() == b.len(),
        strongest_first(v, a),
        strongest_first(v, b),
        forall|m: int| 0 <= m < a.len() ==> b.contains(#[trigger] a[m]),
        forall|m: int| 0 <= m < b.len() ==> a.contains(#[trigger] b[m]),
    ensures
        a == b,
    decreases a.len(),
{
    if a.len() > 0 {
        let last = a.len() - 1;
        let pa = choose|p: int| 0 <= p < b.len() && b[p] == a[last];
        let pb = choose|p: int| 0 <= p < a.len() && a[p] == b[last];
        assert(b.contains(a[last]));
        assert(a.contains(b[last]));
        if a[last] != b[last] {
            assert(ahead(v, b[pa] as int, b[last] as int));
            assert(ahead(v, a[pb] as int, a[last] as int));
            assert(false);
        }
        let a1 = a.drop_last();
        let b1 = b.drop_last();
        assert forall|m: int| 0 <= m < a1.len() implies b1.contains(#[trigger] a1[m]) by {
            assert(b.contains(a[m]));
            let p = choose|p: int| 0 <= p < b.len() && b[p] == a[m];
            assert(ahead(v, a[m] as int, a[last] as int));
            assert(p != last);
            assert(b1[p] == a1[m]);
        }
        assert forall|m: int| 0 <= m < b1.len() implies a1.contains(#[trigger] b1[m]) by {
            assert(a.contains(b[m]));
            let p = choose|p: int| 0 <= p < a.len() && a[p] == b[m];
            assert(ahead(v, b[m] as int, b[last] as int));
            assert(p != last);
            assert(a1[p] == b1[m]);
        }
        lemma_same_positions_same_order(v, a1, b1);
        assert(a == a1.push(a[last]));
        assert(b == b1.push(b[last]));
    }
}

/// The strongest measurement is not negative, bounds all of them, and is one of
/// them where it is positive.
pub proof fn peaks_bound_the_list(v: Seq<Rank>)
    ensures
        0 <= peak_of(v) <= i32::MAX,
        forall|k: int| 0 <= k < v.len() ==> #[trigger] v[k] <= peak_of(v),
        peak_of(v) > 0 ==> exists|k: int| 0 <= k < v.len() && #[trigger] v[k] == peak_of(v),
    decreases v.len(),
{
    if v.len() > 0 {
        let rest = v.drop_last();
        peaks_bound_the_list(rest);
        assert forall|k: int| 0 <= k < v.len() implies #[trigger] v[k] <= peak_of(v) by {
            if k < rest.len() {
                assert(rest[k] == v[k]);
            }
        }
        if peak_of(v) > 0 {
            if peak_of(rest) < v.last() {
                assert(v[v.len() - 1] == peak_of(v));
            } else {
                let k = choose|k: int| 0 <= k < rest.len() && #[trigger] rest[k] == peak_of(rest);
                assert(v[k] == peak_of(v));
            }
        }
    }
}

/// How many entries of an order stay ahead of a measurement that is listed last.
spec fn staying_ahead(v: Seq<Rank>, order: Seq<usize>, x: Rank) -> int
    decreases order.len(),
{
    if order.len() == 0 {
        0
    } else if v[order.last() as int] < x {
        staying_ahead(v, order.drop_last(), x)
    } else {
        order.len() as int
    }
}

proof fn lemma_staying_ahead(v: Seq<Rank>, order: Seq<usize>, x: Rank)
    requires
        strongest_first(v, order),
    ensures
        0 <= staying_ahead(v, order, x) <= order.len(),
        forall|k: int| 0 <= k < staying_ahead(v, order, x) ==> v[#[trigger] order[k] as int] >= x,
        forall|k: int|
            staying_ahead(v, order, x) <= k < order.len() ==> v[#[trigger] order[k] as int] < x,
    decreases order.len(),
{
    if order.len() > 0 {
        let last = order.len() - 1;
        if v[order.last() as int] < x {
            let rest = order.drop_last();
            assert forall|a: int, b: int| 0 <= a < b < rest.len() implies ahead(
                v,
                #[trigger] rest[a] as int,
                #[trigger] rest[b] as int,
            ) by {
                assert(ahead(v, order[a] as int, order[b] as int));
            }
            lemma_staying_ahead(v, rest, x);
            assert forall|k: int| 0 <= k < staying_ahead(v, order, x) implies v[#[trigger] order[k] as int]
                >= x by {
                assert(rest[k] == order[k]);
            }
            assert forall|k: int| staying_ahead(v, order, x) <= k < order.len() implies v[#[trigger] order[k] as int]
                < x by {
                if k < last {
                    assert(rest[k] == order[k]);
                }
            }
        } else {
            assert forall|k: int| 0 <= k < order.len() implies v[#[trigger] order[k] as int] >= x by {
                if k < last {
                    assert(ahead(v, order[k] as int, order[last] as int));
                }
            }
        }
    }
}

proof fn lemma_ordering(v: Seq<Rank>) -> (r: Seq<usize>)
    requires
        v.len() <= usize::MAX,
    ensures
        is_order(v, r),
    decreases v.len(),
{
    if v.len() == 0 {
        Seq::empty()
    } else {
        let n = v.len() as int;
        let p = (n - 1) as usize;
        let o = lemma_ordering(v.drop_last());
        assert forall|a: int, b: int| 0 <= a < b < o.len() implies ahead(
            v,
            #[trigger] o[a] as int,
            #[trigger] o[b] as int,
        ) by {
            assert(ahead(v.drop_last(), o[a] as int, o[b] as int));
        }
        lemma_staying_ahead(v, o, v[n - 1]);
        let m = staying_ahead(v, o, v[n - 1]);
        let r = Seq::new(
            v.len(),
            |k: int|
                if k < m {
                    o[k]
                } else if k == m {
                    p
                } else {
                    o[k - 1]
                },
        );
        assert forall|k: usize| k < v.len() implies r.contains(k) by {
            if k < n - 1 {
                assert(o.contains(k));
                let a = choose|a: int| 0 <= a < o.len() && o[a] == k;
                assert(r[if a < m {
                    a
                } else {
                    a + 1
                }] == k);
            } else {
                assert(r[m] == k);
            }
        }
        r
    }
}

/// Any measurements can be ordered.
pub proof fn an_order_exists(v: Seq<Rank>)
    requires
        v.len() <= usize::MAX,
    ensures
        is_order(v, order_of(v)),
{
    let order = lemma_ordering(v);
    assert(is_order(v, order));
}

/// There is only one order from the strongest measurement to the weakest.
pub proof fn the_order_is_unique(v: Seq<Rank>, a: Seq<usize>, b: Seq<usize>)
    requires
        is_order(v, a),
        is_order(v, b),
    ensures
        a == b,
{
    lemma_same_positions_same_order(v, a, b);
}

/// Of two measurements the stronger one comes ahead, and of two equal ones the one
/// listed first; so of any two exactly one does.
pub proof fn stronger_measurements_come_ahead(v: Seq<Rank>, i: int, j: int)
    ensures
        v[i] > v[j] ==> ahead(v, i, j) && !ahead(v, j, i),
        v[i] == v[j] && i < j ==> ahead(v, i, j) && !ahead(v, j, i),
        i != j ==> ahead(v, i, j) != ahead(v, j, i),
        !ahead(v, i, i),
{
}

/// The last of the strongest is not weaker than any and stronger than all after
/// it, the first not weaker than any and stronger than all before it; there is one
/// of each.
pub proof fn the_strongest_is_single(v: Seq<Rank>, i: int, j: int)
    requires
        0 <= i < v.len(),
        0 <= j < v.len(),
    ensures
        is_last_max(v, i) && is_last_max(v, j) ==> i == j,
        is_first_max(v, i) && is_first_max(v, j) ==> i == j,
        is_last_max(v, i) ==> v[j] <= v[i] && (j > i ==> v[j] < v[i]),
        is_first_max(v, i) ==> v[j] <= v[i] && (j < i ==> v[j] < v[i]),
        (forall|k: int| 0 <= k < v.len() && k != i ==> v[k] < v[i]) ==> is_last_max(v, i)
            && is_first_max(v, i),
{
    if i < j {
        assert(is_last_max(v, i) ==> v[j] < v[i]);
        assert(is_first_max(v, j) ==> v[i] < v[j]);
    } else if j < i {
        assert(is_last_max(v, j) ==> v[i] < v[j]);
        assert(is_first_max(v, i) ==> v[j] < v[i]);
    }
    assert(is_last_max(v, i) ==> v[j] <= v[i]);
    assert(is_last_max(v, j) ==> v[i] <= v[j]);
    assert(is_first_max(v, i) ==> v[j] <= v[i]);
    assert(is_first_max(v, j) ==> v[i] <= v[j]);
}

/// Points are as far apart as their columns and rows are: the square of the
/// distance is the sum of the squares of both.
pub proof fn distances_add_up_in_squares(a: Spot, b: Spot)
    ensures
        distance2(a, b) == distance2(b, a),
        distance2(a, a) == 0,
        a.1 == b.1 ==> distance2(a, b) == (a.0 - b.0) * (a.0 - b.0),
        a.0 == b.0 ==> distance2(a, b) == (a.1 - b.1) * (a.1 - b.1),
        distance2(a, b) == (a.0 - b.0) * (a.0 - b.0) + (a.1 - b.1) * (a.1 - b.1),
{
    assert((a.0 - b.0) * (a.0 - b.0) == (b.0 - a.0) * (b.0 - a.0)) by (nonlinear_arith);
    assert((a.1 - b.1) * (a.1 - b.1) == (b.1 - a.1) * (b.1 - a.1)) by (nonlinear_arith);
    assert((a.0 - a.0) * (a.0 - a.0) == 0 && (a.1 - a.1) * (a.1 - a.1) == 0) by (nonlinear_arith);
}

/// Thinning goes through the order entry by entry: one joins while there is room
/// if it keeps the gap from all that joined.
pub proof fn thinning_takes_entries_in_turn(
    spots: Seq<Spot>,
    order: Seq<usize>,
    limit: int,
    gap2: int,
    m: int,
)
    requires
        0 <= m < order.len(),
    ensures
        ({
            let kept = thinned(spots, order, limit, gap2, m);
            let next = thinned(spots, order, limit, gap2, m + 1);
            &&& kept.len() >= limit ==> next == kept
            &&& kept.len() < limit && (forall|k: int|
                0 <= k < kept.len() ==> {
                    let a = spots[#[trigger] kept[k] as int];
                    let b = spots[order[m] as int];
                    (a.0 - b.0) * (a.0 - b.0) + (a.1 - b.1) * (a.1 - b.1) >= gap2
                }) ==> next == kept.push(order[m])
            &&& next == kept || next == kept.push(order[m])
        }),
        thinned(spots, order, limit, gap2, 0) == Seq::<usize>::empty(),
{
    let kept = thinned(spots, order, limit, gap2, m);
    if forall|k: int|
        0 <= k < kept.len() ==> {
            let a = spots[#[trigger] kept[k] as int];
            let b = spots[order[m] as int];
            (a.0 - b.0) * (a.0 - b.0) + (a.1 - b.1) * (a.1 - b.1) >= gap2
        } {
        assert(stands_apart(spots, kept, order[m] as int, gap2));
    }
}

} // verus!
