//! Selecting things by number, and the extremes of a list of numbers.

use vstd::prelude::*;

verus! {

/// The numbers from 0 up to `n`.
pub open spec fn every(n: nat) -> Seq<usize> {
    Seq::new(n, |i: int| i as usize)
}

/// The numbers from 0 up to `n`.
pub fn all_of(n: usize) -> (r: Vec<usize>)
    ensures
        r@ == every(n as nat),
{
    let mut r: Vec<usize> = Vec::new();
    let mut i: usize = 0;
    while i < n
        invariant
            0 <= i <= n,
            r@ == every(i as nat),
        decreases n - i,
    {
        r.push(i);
        i = i + 1;
    }
    r
}

/// Whether all numbers of a pool are below `n`.
pub open spec fn all_below(pool: Seq<usize>, n: int) -> bool {
    forall|k: int| 0 <= k < pool.len() ==> #[trigger] pool[k] < n
}

/// The members of a pool whose flag is set, in the order of the pool.
pub open spec fn sifted(pool: Seq<usize>, keep: Seq<bool>) -> Seq<usize>
    decreases pool.len(),
{
    if pool.len() == 0 {
        Seq::empty()
    } else {
        let rest = sifted(pool.drop_last(), keep);
        if keep[pool.last() as int] {
            rest.push(pool.last())
        } else {
            rest
        }
    }
}

/// The members of a pool whose flag is set, in the order of the pool.
pub fn sift(pool: &Vec<usize>, keep: &Vec<bool>) -> (r: Vec<usize>)
    requires
        all_below(pool@, keep@.len() as int),
    ensures
        r@ == sifted(pool@, keep@),
        all_below(r@, keep@.len() as int),
        r@.len() <= pool@.len(),
{
    let mut r: Vec<usize> = Vec::new();
    let mut k: usize = 0;
    while k < pool.len()
        invariant
            0 <= k <= pool@.len(),
            all_below(pool@, keep@.len() as int),
            r@ == sifted(pool@.take(k as int), keep@),
            all_below(r@, keep@.len() as int),
            r@.len() <= k,
        decreases pool@.len() - k,
    {
        assert(pool@.take(k + 1).drop_last() == pool@.take(k as int));
        if keep[pool[k]] {
            r.push(pool[k]);
        }
        k = k + 1;
    }
    assert(pool@.take(k as int) == pool@);
    r
}

/// Sifting keeps the flagged members of the pool and nothing else.
pub proof fn sifting_keeps_the_flagged(pool: Seq<usize>, keep: Seq<bool>, x: usize)
    ensures
        sifted(pool, keep).contains(x) <==> pool.contains(x) && keep[x as int],
        sifted(pool, keep).len() <= pool.len(),
    decreases pool.len(),
{
    if pool.len() > 0 {
        let rest = pool.drop_last();
        sifting_keeps_the_flagged(rest, keep, x);
        let before = sifted(rest, keep);
        let after = sifted(pool, keep);
        if before.contains(x) {
            let k = choose|k: int| 0 <= k < before.len() && before[k] == x;
            assert(after[k] == x);
        }
        if rest.contains(x) {
            let k = choose|k: int| 0 <= k < rest.len() && rest[k] == x;
            assert(pool[k] == x);
        }
        if pool.contains(x) && !rest.contains(x) {
            let k = choose|k: int| 0 <= k < pool.len() && pool[k] == x;
            if k < rest.len() {
                assert(rest[k] == x);
            }
            if keep[x as int] {
                assert(after[after.len() - 1] == x);
            }
        }
        if after.contains(x) && !before.contains(x) {
            let k = choose|k: int| 0 <= k < after.len() && after[k] == x;
            if k < before.len() {
                assert(before[k] == x);
            }
            assert(pool[pool.len() - 1] == x);
        }
    }
}

/// Fewer flags keep no more of a pool.
pub proof fn fewer_flags_keep_fewer(pool: Seq<usize>, some: Seq<bool>, more: Seq<bool>)
    requires
        some.len() == more.len(),
        forall|i: int| 0 <= i < some.len() && #[trigger] some[i] ==> more[i],
        all_below(pool, some.len() as int),
    ensures
        sifted(pool, some).len() <= sifted(pool, more).len(),
    decreases pool.len(),
{
    if pool.len() > 0 {
        assert(pool[pool.len() - 1] < some.len());
        assert forall|k: int| 0 <= k < pool.drop_last().len() implies #[trigger] pool.drop_last()[k]
            < some.len() by {
            assert(pool.drop_last()[k] == pool[k]);
        }
        fewer_flags_keep_fewer(pool.drop_last(), some, more);
    }
}

/// What is sifted from numbers below `n` is below `n`.
pub proof fn sifted_stay_below(pool: Seq<usize>, keep: Seq<bool>, n: int)
    requires
        all_below(pool, n),
    ensures
        all_below(sifted(pool, keep), n),
    decreases pool.len(),
{
    if pool.len() > 0 {
        assert(all_below(pool.drop_last(), n)) by {
            assert forall|k: int| 0 <= k < pool.drop_last().len() implies #[trigger] pool.drop_last()[k]
                < n by {
                assert(pool.drop_last()[k] == pool[k]);
            }
        }
        sifted_stay_below(pool.drop_last(), keep, n);
        assert(pool[pool.len() - 1] < n);
    }
}

/// The smallest of some numbers.
pub open spec fn min_of(v: Seq<u64>) -> u64
    decreases v.len(),
{
    if v.len() <= 1 {
        v[0]
    } else {
        let m = min_of(v.drop_last());
        if v.last() < m {
            v.last()
        } else {
            m
        }
    }
}

/// The largest of some numbers.
pub open spec fn max_of(v: Seq<u64>) -> u64
    decreases v.len(),
{
    if v.len() <= 1 {
        v[0]
    } else {
        let m = max_of(v.drop_last());
        if v.last() > m {
            v.last()
        } else {
            m
        }
    }
}

/// The smallest of some numbers is one of them and not above any, and so for
/// the largest.
pub proof fn extremes_bound_the_list(v: Seq<u64>)
    requires
        v.len() > 0,
    ensures
        v.contains(min_of(v)),
        v.contains(max_of(v)),
        forall|k: int| 0 <= k < v.len() ==> min_of(v) <= #[trigger] v[k] <= max_of(v),
    decreases v.len(),
{
    if v.len() == 1 {
        assert(v[0] == min_of(v));
        assert(v[0] == max_of(v));
    } else {
        let rest = v.drop_last();
        extremes_bound_the_list(rest);
        let a = choose|a: int| 0 <= a < rest.len() && rest[a] == min_of(rest);
        let b = choose|b: int| 0 <= b < rest.len() && rest[b] == max_of(rest);
        assert(v[a] == min_of(rest) && v[b] == max_of(rest));
        assert(v[v.len() - 1] == v.last());
        assert forall|k: int| 0 <= k < v.len() implies min_of(v) <= #[trigger] v[k] <= max_of(v) by {
            if k < rest.len() {
                assert(rest[k] == v[k]);
            }
        }
    }
}

/// The smallest of some numbers.
pub fn lowest(v: &Vec<u64>) -> (r: u64)
    requires
        v@.len() > 0,
    ensures
        r == min_of(v@),
        v@.contains(r),
        forall|k: int| 0 <= k < v@.len() ==> r <= #[trigger] v@[k],
{
    let mut best: u64 = v[0];
    let mut k: usize = 1;
    while k < v.len()
        invariant
            1 <= k <= v@.len(),
            best == min_of(v@.take(k as int)),
        decreases v@.len() - k,
    {
        assert(v@.take(k + 1).drop_last() == v@.take(k as int));
        if v[k] < best {
            best = v[k];
        }
        k = k + 1;
    }
    assert(v@.take(k as int) == v@);
    proof {
        extremes_bound_the_list(v@);
    }
    best
}

/// The largest of some numbers.
pub fn highest(v: &Vec<u64>) -> (r: u64)
    requires
        v@.len() > 0,
    ensures
        r == max_of(v@),
        v@.contains(r),
        forall|k: int| 0 <= k < v@.len() ==> #[trigger] v@[k] <= r,
{
    let mut best: u64 = v[0];
    let mut k: usize = 1;
    while k < v.len()
        invariant
            1 <= k <= v@.len(),
            best == max_of(v@.take(k as int)),
        decreases v@.len() - k,
    {
        assert(v@.take(k + 1).drop_last() == v@.take(k as int));
        if v[k] > best {
            best = v[k];
        }
        k = k + 1;
    }
    assert(v@.take(k as int) == v@);
    proof {
        extremes_bound_the_list(v@);
    }
    best
}

/// Sifting goes through a pool member by member: each one whose flag is set joins
/// behind those before it, and no other does.
pub proof fn sifting_takes_members_in_turn(pool: Seq<usize>, keep: Seq<bool>, x: usize)
    ensures
        sifted(Seq::empty(), keep) == Seq::<usize>::empty(),
        keep[x as int] ==> sifted(pool.push(x), keep) == sifted(pool, keep).push(x),
        !keep[x as int] ==> sifted(pool.push(x), keep) == sifted(pool, keep),
{
    assert(pool.push(x).drop_last() == pool);
}

/// What is sifted from all numbers goes upwards, each number once.
pub proof fn sifted_numbers_ascend(n: nat, keep: Seq<bool>, i: int, j: int)
    requires
        n <= usize::MAX,
        0 <= i < j < sifted(every(n), keep).len(),
    ensures
        sifted(every(n), keep)[i] < sifted(every(n), keep)[j],
        sifted(every(n), keep)[j] < n,
    decreases n,
{
    if n > 0 {
        let rest = every((n - 1) as nat);
        assert(every(n).drop_last() == rest);
        let before = sifted(rest, keep);
        if j < before.len() {
            sifted_numbers_ascend((n - 1) as nat, keep, i, j);
        } else {
            assert(all_below(rest, n - 1));
            sifted_stay_below(rest, keep, n - 1);
            assert(before[i] < n - 1);
            assert(every(n).last() == (n - 1) as usize);
        }
    }
}

} // verus!
