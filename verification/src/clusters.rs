//! Clusters: which things hang together when some of them are near each other.

use crate::counting::blank;
use crate::distance::is_within;
use crate::grid::Block;
use vstd::prelude::*;

verus! {

/// A number of things, and which of them are near which.
#[verifier::ext_equal]
pub ghost enum Web {
    /// Blocks, near each other where their centres are no further apart than
    /// `num / den` times a length.
    Blocks { rects: Seq<Block>, num: int, den: int, length: int },
    /// `n` things with one row for each: which things are near it.
    Table { n: nat, near: Seq<bool> },
}

/// The same, to compute with.
pub enum Links {
    Blocks { rects: Vec<Block>, num: u32, den: u32, length: u32 },
    Table { n: usize, near: Vec<bool> },
}

impl View for Links {
    type V = Web;

    open spec fn view(&self) -> Web {
        match self {
            Links::Blocks { rects, num, den, length } => Web::Blocks {
                rects: rects@,
                num: *num as int,
                den: *den as int,
                length: *length as int,
            },
            Links::Table { n, near } => Web::Table { n: *n as nat, near: near@ },
        }
    }
}

impl Web {
    /// The number of things.
    pub open spec fn n(self) -> nat {
        match self {
            Web::Blocks { rects, .. } => rects.len(),
            Web::Table { n, .. } => n,
        }
    }

    /// Whether `j` is near `i`.
    pub open spec fn is_near(self, i: int, j: int) -> bool {
        match self {
            Web::Blocks { rects, num, den, length } => crate::distance::within(
                rects[i],
                rects[j],
                num,
                den,
                length,
            ),
            Web::Table { n, near } => near[i * n + j],
        }
    }

    /// There are no more things than can be counted, and a table has an entry
    /// for each two things.
    pub open spec fn well_formed(self) -> bool {
        &&& self.n() <= usize::MAX
        &&& self matches Web::Table { n, near } ==> near.len() == n * n
    }

    /// Whether nearness does not depend on the order.
    pub open spec fn symmetric(self) -> bool {
        forall|i: int, j: int|
            0 <= i < self.n() && 0 <= j < self.n() ==> #[trigger] self.is_near(i, j) == self.is_near(j, i)
    }

    /// What is visited once the things near `i` are.
    pub open spec fn spread(self, visited: Seq<bool>, i: int) -> Seq<bool> {
        Seq::new(visited.len(), |j: int| visited[j] || self.is_near(i, j))
    }

    /// The things near `i` that are not visited yet, among the first `upto`.
    pub open spec fn fresh(self, visited: Seq<bool>, i: int, upto: int) -> Seq<usize>
        decreases upto,
    {
        if upto <= 0 {
            Seq::empty()
        } else if !visited[upto - 1] && self.is_near(i, upto - 1) {
            self.fresh(visited, i, upto - 1).push((upto - 1) as usize)
        } else {
            self.fresh(visited, i, upto - 1)
        }
    }

    /// The search that takes the last thing waiting, lists it, and lets the
    /// things near it that were not visited wait in turn.
    pub open spec fn flood(self, visited: Seq<bool>, waiting: Seq<usize>, found: Seq<usize>) -> (
        Seq<bool>,
        Seq<usize>,
    )
        decreases crate::counting::unmarked(visited) + waiting.len(),
    {
        if waiting.len() == 0 {
            (visited, found)
        } else {
            let i = waiting.last();
            proof {
                self.spreading_marks_the_fresh(visited, i as int, visited.len() as int);
                assert(self.spread(visited, i as int).take(visited.len() as int) == self.spread(
                    visited,
                    i as int,
                ));
                assert(visited.take(visited.len() as int) == visited);
            }
            self.flood(
                self.spread(visited, i as int),
                waiting.drop_last() + self.fresh(visited, i as int, visited.len() as int),
                found.push(i),
            )
        }
    }

    /// The search from one thing.
    pub open spec fn flood_from(self, visited: Seq<bool>, i: int) -> (Seq<bool>, Seq<usize>) {
        self.flood(visited.update(i, true), seq![i as usize], Seq::empty())
    }

    /// What is visited, and the clusters in the order of their first things,
    /// when the search has started from each of the first `upto` things that
    /// was not visited by then.
    pub open spec fn gathered(self, upto: int) -> (Seq<bool>, Seq<Seq<usize>>)
        decreases upto,
    {
        if upto <= 0 {
            (Seq::new(self.n(), |j: int| false), Seq::empty())
        } else {
            let (visited, clusters) = self.gathered(upto - 1);
            if visited[upto - 1] {
                (visited, clusters)
            } else {
                let (after, cluster) = self.flood_from(visited, upto - 1);
                (after, clusters.push(cluster))
            }
        }
    }

    /// The clusters, each in the order in which the search lists its things.
    pub open spec fn clusters(self) -> Seq<Seq<usize>> {
        self.gathered(self.n() as int).1
    }

    /// Whether some cluster lists a thing.
    pub open spec fn lists(self, a: usize) -> bool {
        exists|c: int| 0 <= c < self.clusters().len() && (#[trigger] self.clusters()[c]).contains(a)
    }

    /// What a spread marks among the first `upto` things is what was fresh there.
    pub proof fn spreading_marks_the_fresh(self, visited: Seq<bool>, i: int, upto: int)
        requires
            0 <= upto <= visited.len(),
        ensures
            crate::counting::unmarked(self.spread(visited, i).take(upto)) + self.fresh(
                visited,
                i,
                upto,
            ).len() == crate::counting::unmarked(visited.take(upto)),
        decreases upto,
    {
        if upto > 0 {
            self.spreading_marks_the_fresh(visited, i, upto - 1);
            assert(visited.take(upto).drop_last() == visited.take(upto - 1));
            assert(self.spread(visited, i).take(upto).drop_last() == self.spread(visited, i).take(
                upto - 1,
            ));
        }
    }

    /// Whether `b` is `k` steps from `a`.
    pub open spec fn steps(self, k: nat, a: int, b: int) -> bool
        decreases k,
    {
        if k == 0 {
            a == b
        } else {
            exists|m: int| #[trigger] self.leads(m, b) && self.steps((k - 1) as nat, a, m)
        }
    }

    /// Whether a step leads from `a` to `b`.
    pub open spec fn leads(self, a: int, b: int) -> bool {
        0 <= a < self.n() && 0 <= b < self.n() && self.is_near(a, b)
    }

    /// Whether steps between near things lead from `a` to `b`.
    pub open spec fn connected(self, a: int, b: int) -> bool {
        exists|k: nat| self.steps(k, a, b)
    }

    proof fn lemma_fresh(self, visited: Seq<bool>, i: int, upto: int)
        requires
            0 <= upto <= visited.len() <= usize::MAX,
        ensures
            self.fresh(visited, i, upto).no_duplicates(),
            forall|k: int|
                0 <= k < self.fresh(visited, i, upto).len() ==> {
                    let x = #[trigger] self.fresh(visited, i, upto)[k];
                    x < upto && !visited[x as int] && self.is_near(i, x as int)
                },
            forall|x: usize|
                x < upto && !visited[x as int] && #[trigger] self.is_near(i, x as int)
                    ==> self.fresh(visited, i, upto).contains(x),
        decreases upto,
    {
        if upto > 0 {
            self.lemma_fresh(visited, i, upto - 1);
            let before = self.fresh(visited, i, upto - 1);
            let after = self.fresh(visited, i, upto);
            assert forall|x: usize|
                x < upto && !visited[x as int] && #[trigger] self.is_near(
                    i,
                    x as int,
                ) implies after.contains(x) by {
                if x < upto - 1 {
                    assert(before.contains(x));
                    let k = choose|k: int| 0 <= k < before.len() && before[k] == x;
                    assert(after[k] == x);
                } else {
                    assert(after[after.len() - 1] == x);
                }
            }
        }
    }

    /// What holds throughout a search from `seed` after `before` was visited.
    spec fn searching(
        self,
        before: Seq<bool>,
        seed: int,
        visited: Seq<bool>,
        waiting: Seq<usize>,
        found: Seq<usize>,
    ) -> bool {
        &&& self.n() <= usize::MAX
        &&& before.len() == self.n()
        &&& visited.len() == self.n()
        &&& waiting.no_duplicates()
        &&& found.no_duplicates()
        &&& forall|a: int, b: int|
            0 <= a < waiting.len() && 0 <= b < found.len() ==> #[trigger] waiting[a]
                != #[trigger] found[b]
        &&& forall|a: int|
            0 <= a < waiting.len() ==> {
                let x = #[trigger] waiting[a];
                x < self.n() && visited[x as int] && !before[x as int] && self.connected(
                    seed,
                    x as int,
                )
            }
        &&& forall|b: int|
            0 <= b < found.len() ==> {
                let x = #[trigger] found[b];
                x < self.n() && visited[x as int] && !before[x as int] && self.connected(
                    seed,
                    x as int,
                )
            }
        &&& forall|j: usize|
            j < self.n() && #[trigger] visited[j as int] && !before[j as int] ==> waiting.contains(j)
                || found.contains(j)
        &&& forall|j: int| 0 <= j < self.n() && before[j] ==> #[trigger] visited[j]
        &&& forall|b: int, j: int|
            0 <= b < found.len() && 0 <= j < self.n() && #[trigger] self.is_near(found[b] as int, j)
                ==> visited[j]
    }

    proof fn lemma_step(
        self,
        before: Seq<bool>,
        seed: int,
        visited: Seq<bool>,
        waiting: Seq<usize>,
        found: Seq<usize>,
    )
        requires
            self.searching(before, seed, visited, waiting, found),
            waiting.len() > 0,
        ensures
            self.searching(
                before,
                seed,
                self.spread(visited, waiting.last() as int),
                waiting.drop_last() + self.fresh(
                    visited,
                    waiting.last() as int,
                    visited.len() as int,
                ),
                found.push(waiting.last()),
            ),
    {
        let i = waiting.last();
        let fresh = self.fresh(visited, i as int, visited.len() as int);
        let visited1 = self.spread(visited, i as int);
        let waiting1 = waiting.drop_last() + fresh;
        let found1 = found.push(i);
        self.lemma_fresh(visited, i as int, visited.len() as int);
        let m = waiting.len() - 1;
        assert(waiting[m] == i);
        assert forall|a: int| 0 <= a < waiting1.len() implies {
            let x = #[trigger] waiting1[a];
            x < self.n() && visited1[x as int] && !before[x as int] && self.connected(seed, x as int)
        } by {
            let x = waiting1[a];
            if a < m {
                assert(x == waiting[a]);
            } else {
                assert(x == fresh[a - m]);
                let k = choose|k: nat| self.steps(k, seed, i as int);
                assert(self.leads(i as int, x as int));
                assert(self.steps(((k + 1) - 1) as nat, seed, i as int));
                assert(self.steps(k + 1, seed, x as int));
            }
        }
        assert forall|j: usize| j < self.n() && #[trigger] visited1[j as int] && !before[j as int] implies waiting1.contains(
            j,
        ) || found1.contains(j) by {
            if visited[j as int] {
                if found.contains(j) {
                    let b = choose|b: int| 0 <= b < found.len() && found[b] == j;
                    assert(found1[b] == j);
                } else {
                    let a = choose|a: int| 0 <= a < waiting.len() && waiting[a] == j;
                    if a == m {
                        assert(found1[found.len() as int] == j);
                    } else {
                        assert(waiting1[a] == j);
                    }
                }
            } else {
                assert(fresh.contains(j));
                let a = choose|a: int| 0 <= a < fresh.len() && fresh[a] == j;
                assert(waiting1[m + a] == j);
            }
        }
        assert forall|a: int, b: int| 0 <= a < waiting1.len() && 0 <= b < found1.len() implies #[trigger] waiting1[a]
            != #[trigger] found1[b] by {
            if a < m {
                assert(waiting1[a] == waiting[a]);
            } else {
                assert(waiting1[a] == fresh[a - m]);
            }
            if b < found.len() {
                assert(found1[b] == found[b]);
            }
        }
        assert forall|a: int, b: int| 0 <= a < waiting1.len() && 0 <= b < waiting1.len() && a != b implies waiting1[a]
            != waiting1[b] by {
            if a < m && b < m {
                assert(waiting1[a] == waiting[a] && waiting1[b] == waiting[b]);
            } else if a < m {
                assert(waiting1[a] == waiting[a] && waiting1[b] == fresh[b - m]);
            } else if b < m {
                assert(waiting1[b] == waiting[b] && waiting1[a] == fresh[a - m]);
            } else {
                assert(waiting1[a] == fresh[a - m] && waiting1[b] == fresh[b - m]);
            }
        }
        assert forall|b: int, j: int|
            0 <= b < found1.len() && 0 <= j < self.n() && #[trigger] self.is_near(
                found1[b] as int,
                j,
            ) implies visited1[j] by {
            if b < found.len() {
                assert(self.is_near(found[b] as int, j));
            }
        }
    }

    proof fn lemma_search(
        self,
        before: Seq<bool>,
        seed: int,
        visited: Seq<bool>,
        waiting: Seq<usize>,
        found: Seq<usize>,
    )
        requires
            self.searching(before, seed, visited, waiting, found),
        ensures
            ({
                let (after, cluster) = self.flood(visited, waiting, found);
                &&& self.searching(before, seed, after, Seq::empty(), cluster)
                &&& forall|j: int| 0 <= j < self.n() && visited[j] ==> #[trigger] after[j]
                &&& found.len() > 0 ==> cluster.len() > 0 && cluster[0] == found[0]
                &&& found.len() == 0 && waiting.len() > 0 ==> cluster.len() > 0 && cluster[0]
                    == waiting.last()
            }),
        decreases crate::counting::unmarked(visited) + waiting.len(),
    {
        if waiting.len() == 0 {
            assert(waiting == Seq::<usize>::empty());
        } else {
            let i = waiting.last() as int;
            self.lemma_step(before, seed, visited, waiting, found);
            self.spreading_marks_the_fresh(visited, i, visited.len() as int);
            assert(self.spread(visited, i).take(visited.len() as int) == self.spread(visited, i));
            assert(visited.take(visited.len() as int) == visited);
            self.lemma_search(
                before,
                seed,
                self.spread(visited, i),
                waiting.drop_last() + self.fresh(visited, i, visited.len() as int),
                found.push(waiting.last()),
            );
        }
    }

    /// What holds of the clusters gathered so far.
    spec fn grouping(self, visited: Seq<bool>, cs: Seq<Seq<usize>>) -> bool {
        &&& visited.len() == self.n()
        &&& forall|c: int| 0 <= c < cs.len() ==> (#[trigger] cs[c]).len() > 0
        &&& forall|j: usize|
            j < self.n() && #[trigger] visited[j as int] ==> exists|c: int|
                0 <= c < cs.len() && (#[trigger] cs[c]).contains(j)
        &&& forall|c: int, k: int|
            0 <= c < cs.len() && 0 <= k < cs[c].len() ==> (#[trigger] cs[c][k]) < self.n()
                && visited[cs[c][k] as int]
        &&& forall|c: int, d: int, k: int, l: int|
            0 <= c < cs.len() && 0 <= d < cs.len() && 0 <= k < cs[c].len() && 0 <= l < cs[d].len()
                && #[trigger] cs[c][k] == #[trigger] cs[d][l] ==> c == d && k == l
        &&& forall|c: int, k: int|
            0 <= c < cs.len() && 0 <= k < cs[c].len() ==> self.connected(
                cs[c][0] as int,
                #[trigger] cs[c][k] as int,
            )
        &&& forall|c: int, k: int, j: usize|
            0 <= c < cs.len() && 0 <= k < cs[c].len() && j < self.n() && self.is_near(
                #[trigger] cs[c][k] as int,
                j as int,
            ) ==> #[trigger] cs[c].contains(j)
    }

    proof fn lemma_gathered(self, upto: int)
        requires
            self.well_formed(),
            self.symmetric(),
            0 <= upto <= self.n(),
        ensures
            self.grouping(self.gathered(upto).0, self.gathered(upto).1),
            forall|j: int| 0 <= j < upto ==> #[trigger] self.gathered(upto).0[j],
        decreases upto,
    {
        if upto > 0 {
            self.lemma_gathered(upto - 1);
            let (v0, cs0) = self.gathered(upto - 1);
            let s = upto - 1;
            if !v0[s] {
                let start = v0.update(s, true);
                let waiting = seq![s as usize];
                let none = Seq::<usize>::empty();
                assert(self.steps(0, s, s));
                assert(waiting[0] == s as usize);
                assert forall|j: usize| j < self.n() && #[trigger] start[j as int] && !v0[j as int] implies waiting.contains(
                    j,
                ) by {
                    assert(waiting[0] == j);
                }
                assert(self.searching(v0, s, start, waiting, none));
                self.lemma_search(v0, s, start, waiting, none);
                let (v1, c1) = self.flood(start, waiting, none);
                let cs1 = cs0.push(c1);
                let last = cs0.len() as int;
                assert(self.gathered(upto) == (v1, cs1));
                assert(c1[0] == s as usize);
                assert forall|j: usize| j < self.n() && #[trigger] v1[j as int] implies exists|c: int|
                    0 <= c < cs1.len() && (#[trigger] cs1[c]).contains(j) by {
                    if v0[j as int] {
                        let c = choose|c: int| 0 <= c < cs0.len() && (#[trigger] cs0[c]).contains(j);
                        assert(cs1[c] == cs0[c]);
                    } else {
                        assert(cs1[last].contains(j));
                    }
                }
                assert forall|c: int, k: int| 0 <= c < cs1.len() && 0 <= k < cs1[c].len() implies (
                #[trigger] cs1[c][k]) < self.n() && v1[cs1[c][k] as int] && self.connected(
                    cs1[c][0] as int,
                    cs1[c][k] as int,
                ) by {
                    if c < last {
                        assert(cs1[c][k] == cs0[c][k]);
                        assert(v0[cs0[c][k] as int]);
                    } else {
                        assert(cs1[c][k] == c1[k]);
                    }
                }
                assert forall|c: int, d: int, k: int, l: int|
                    0 <= c < cs1.len() && 0 <= d < cs1.len() && 0 <= k < cs1[c].len() && 0 <= l
                        < cs1[d].len() && #[trigger] cs1[c][k] == #[trigger] cs1[d][l] implies c
                    == d && k == l by {
                    if c < last && d < last {
                        assert(cs0[c][k] == cs0[d][l]);
                    } else if c < last {
                        assert(v0[cs0[c][k] as int]);
                        assert(!v0[c1[l] as int]);
                    } else if d < last {
                        assert(v0[cs0[d][l] as int]);
                        assert(!v0[c1[k] as int]);
                    }
                }
                assert forall|c: int, k: int, j: usize|
                    0 <= c < cs1.len() && 0 <= k < cs1[c].len() && j < self.n() && self.is_near(
                        #[trigger] cs1[c][k] as int,
                        j as int,
                    ) implies #[trigger] cs1[c].contains(j) by {
                    if c < last {
                        assert(self.is_near(cs0[c][k] as int, j as int));
                        assert(cs0[c].contains(j));
                    } else {
                        let x = c1[k];
                        assert(self.is_near(c1[k] as int, j as int));
                        assert(v1[j as int]);
                        if v0[j as int] {
                            let e = choose|e: int|
                                0 <= e < cs0.len() && (#[trigger] cs0[e]).contains(j);
                            let l = choose|l: int| 0 <= l < cs0[e].len() && cs0[e][l] == j;
                            assert(self.is_near(j as int, x as int));
                            assert(self.is_near(cs0[e][l] as int, x as int));
                            assert(cs0[e].contains(x));
                            let p = choose|p: int| 0 <= p < cs0[e].len() && cs0[e][p] == x;
                            assert(v0[cs0[e][p] as int]);
                            assert(false);
                        }
                    }
                }
                assert forall|j: int| 0 <= j < upto implies #[trigger] v1[j] by {
                    if j < upto - 1 {
                        assert(v0[j]);
                    }
                    assert(start[j]);
                }
            } else {
                assert forall|j: int| 0 <= j < upto implies #[trigger] v0[j] by {}
            }
        }
    }

    proof fn lemma_prepend(self, k: nat, a: int, m: int, b: int)
        requires
            self.leads(a, m),
            self.steps(k, m, b),
        ensures
            self.steps(k + 1, a, b),
        decreases k,
    {
        if k == 0 {
            assert(self.steps(0, a, a));
            assert(self.steps(((k + 1) - 1) as nat, a, a));
        } else {
            let p = choose|p: int| #[trigger] self.leads(p, b) && self.steps((k - 1) as nat, m, p);
            self.lemma_prepend((k - 1) as nat, a, m, p);
            assert(self.steps(((k + 1) - 1) as nat, a, p));
        }
    }

    proof fn lemma_reverse(self, k: nat, a: int, b: int)
        requires
            self.symmetric(),
            self.steps(k, a, b),
        ensures
            self.steps(k, b, a),
        decreases k,
    {
        if k > 0 {
            let p = choose|p: int| #[trigger] self.leads(p, b) && self.steps((k - 1) as nat, a, p);
            self.lemma_reverse((k - 1) as nat, a, p);
            assert(self.is_near(b, p));
            self.lemma_prepend((k - 1) as nat, b, p, a);
        }
    }

    proof fn lemma_onwards(self, k: nat, l: nat, a: int, b: int, c: int)
        requires
            self.steps(k, a, b),
            self.steps(l, b, c),
        ensures
            self.steps(k + l, a, c),
        decreases l,
    {
        if l > 0 {
            let p = choose|p: int| #[trigger] self.leads(p, c) && self.steps((l - 1) as nat, b, p);
            self.lemma_onwards(k, (l - 1) as nat, a, b, p);
            assert(self.steps(((k + l) - 1) as nat, a, p));
        }
    }

    proof fn lemma_stays(self, k: nat, c: int, a: int, b: int)
        requires
            self.well_formed(),
            self.symmetric(),
            0 <= c < self.clusters().len(),
            0 <= a < self.n(),
            self.clusters()[c].contains(a as usize),
            self.steps(k, a, b),
        ensures
            0 <= b < self.n(),
            self.clusters()[c].contains(b as usize),
        decreases k,
    {
        if k > 0 {
            let p = choose|p: int| #[trigger] self.leads(p, b) && self.steps((k - 1) as nat, a, p);
            self.lemma_stays((k - 1) as nat, c, a, p);
            self.lemma_gathered(self.n() as int);
            let cs = self.clusters();
            let i = choose|i: int| 0 <= i < cs[c].len() && cs[c][i] == p as usize;
            assert(self.is_near(cs[c][i] as int, (b as usize) as int));
        }
    }

    /// Links between blocks do not depend on the order.
    pub proof fn block_links_are_symmetric(self)
        requires
            self is Blocks,
        ensures
            self.symmetric(),
    {
        assert forall|i: int, j: int| 0 <= i < self.n() && 0 <= j < self.n() implies #[trigger] self.is_near(i, j)
            == self.is_near(j, i) by {
            crate::distance::distances_are_symmetric(
                self->rects[i],
                self->rects[j],
                self->num,
                self->den,
                self->length,
            );
        }
    }
}

impl Links {
    /// The ratio is small, or the table has an entry for each two things.
    pub open spec fn well_formed(&self) -> bool {
        &&& self@.well_formed()
        &&& self matches Links::Blocks { num, den, .. } ==> *num <= 0xff && *den <= 0xff
    }

    /// The number of things.
    pub fn count(&self) -> (r: usize)
        ensures
            r == self@.n(),
    {
        match self {
            Links::Blocks { rects, .. } => rects.len(),
            Links::Table { n, .. } => *n,
        }
    }

    /// Whether `j` is near `i`.
    pub fn near_to(&self, i: usize, j: usize) -> (r: bool)
        requires
            self.well_formed(),
            i < self@.n(),
            j < self@.n(),
        ensures
            r == self@.is_near(i as int, j as int),
    {
        match self {
            Links::Blocks { rects, num, den, length } => is_within(
                &rects[i],
                &rects[j],
                *num,
                *den,
                *length as u64,
            ),
            Links::Table { n, near } => {
                proof {
                    let m = *n as int;
                    assert(0 <= i * m && i * m + j < m * m) by (nonlinear_arith)
                        requires
                            0 <= i < m,
                            0 <= j < m,
                    ;
                    assert(near.len() <= usize::MAX);
                }
                near[i * *n + j]
            },
        }
    }

    /// Searches from one thing that was not visited yet.
    pub fn cluster_of(&self, i: usize, visited: &mut Vec<bool>) -> (r: Vec<usize>)
        requires
            self.well_formed(),
            i < self@.n(),
            old(visited)@.len() == self@.n(),
        ensures
            (final(visited)@, r@) == self@.flood_from(old(visited)@, i as int),
            final(visited)@.len() == self@.n(),
            crate::selection::all_below(r@, self@.n() as int),
    {
        let n: usize = self.count();
        let ghost start = visited@.update(i as int, true);
        visited.set(i, true);
        let mut waiting: Vec<usize> = Vec::new();
        waiting.push(i);
        assert(waiting@ == seq![i]);
        let mut found: Vec<usize> = Vec::new();
        while waiting.len() > 0
            invariant
                self.well_formed(),
                n == self@.n(),
                visited@.len() == n,
                forall|k: int| 0 <= k < waiting@.len() ==> #[trigger] waiting@[k] < n,
                forall|k: int| 0 <= k < found@.len() ==> #[trigger] found@[k] < n,
                self@.flood(visited@, waiting@, found@) == self@.flood(start, seq![i], Seq::empty()),
            decreases crate::counting::unmarked(visited@) + waiting@.len(),
        {
            let ghost v0 = visited@;
            let ghost w0 = waiting@;
            let ghost f0 = found@;
            let idx: usize = waiting[waiting.len() - 1];
            waiting.pop();
            found.push(idx);
            let ghost w1 = waiting@;
            let mut j: usize = 0;
            while j < n
                invariant
                    self.well_formed(),
                    n == self@.n(),
                    0 <= j <= n,
                    idx < n,
                    v0.len() == n,
                    visited@.len() == n,
                    waiting@ == w1 + self@.fresh(v0, idx as int, j as int),
                    forall|k: int| 0 <= k < waiting@.len() ==> #[trigger] waiting@[k] < n,
                    forall|k: int|
                        0 <= k < j ==> #[trigger] visited@[k] == (v0[k] || self@.is_near(
                            idx as int,
                            k,
                        )),
                    forall|k: int| j <= k < n ==> #[trigger] visited@[k] == v0[k],
                decreases n - j,
            {
                if !visited[j] && self.near_to(idx, j) {
                    visited.set(j, true);
                    waiting.push(j);
                }
                j = j + 1;
            }
            proof {
                assert(visited@ == self@.spread(v0, idx as int));
                self@.spreading_marks_the_fresh(v0, idx as int, v0.len() as int);
                assert(visited@.take(n as int) == visited@);
                assert(v0.take(n as int) == v0);
                assert(w0.drop_last() == w1);
            }
        }
        found
    }

    /// Groups the things into clusters.
    pub fn grouped(&self) -> (r: Vec<Vec<usize>>)
        requires
            self.well_formed(),
        ensures
            r@.len() == self@.clusters().len(),
            forall|c: int|
                0 <= c < r@.len() ==> (#[trigger] r@[c])@ == self@.clusters()[c]
                    && crate::selection::all_below(r@[c]@, self@.n() as int),
    {
        let n: usize = self.count();
        let mut visited: Vec<bool> = blank(n);
        let mut r: Vec<Vec<usize>> = Vec::new();
        let mut i: usize = 0;
        assert(visited@ == self@.gathered(0).0);
        while i < n
            invariant
                self.well_formed(),
                n == self@.n(),
                0 <= i <= n,
                visited@.len() == self@.n(),
                visited@ == self@.gathered(i as int).0,
                r@.len() == self@.gathered(i as int).1.len(),
                forall|c: int|
                    0 <= c < r@.len() ==> (#[trigger] r@[c])@ == self@.gathered(i as int).1[c]
                        && crate::selection::all_below(r@[c]@, self@.n() as int),
            decreases self@.n() - i,
        {
            if !visited[i] {
                let cluster = self.cluster_of(i, &mut visited);
                r.push(cluster);
            }
            i = i + 1;
        }
        r
    }
}

/// Every thing is listed in a cluster, once, and in no other.
pub proof fn clusters_part_the_things(links: Web)
    requires
        links.well_formed(),
        links.symmetric(),
    ensures
        forall|a: usize| a < links.n() ==> #[trigger] links.lists(a),
        forall|c: int, d: int, k: int, l: int|
            0 <= c < links.clusters().len() && 0 <= d < links.clusters().len() && 0 <= k
                < links.clusters()[c].len() && 0 <= l < links.clusters()[d].len()
                && #[trigger] links.clusters()[c][k] == #[trigger] links.clusters()[d][l] ==> c == d
                && k == l,
{
    links.lemma_gathered(links.n() as int);
    assert forall|a: usize| a < links.n() implies #[trigger] links.lists(a) by {
        assert(links.gathered(links.n() as int).0[a as int]);
    }
}

/// Clusters list nothing but the things, and each lists one at least.
pub proof fn clusters_list_only_things(links: Web, c: int)
    requires
        links.well_formed(),
        links.symmetric(),
        0 <= c < links.clusters().len(),
    ensures
        crate::selection::all_below(links.clusters()[c], links.n() as int),
        links.clusters()[c].len() > 0,
{
    links.lemma_gathered(links.n() as int);
    assert forall|k: int| 0 <= k < links.clusters()[c].len() implies #[trigger] links.clusters()[c][k]
        < links.n() by {}
}

/// Two things share a cluster if and only if steps between near things lead
/// from one to the other.
pub proof fn clusters_are_what_is_connected(links: Web, c: int, a: int, b: int)
    requires
        links.well_formed(),
        links.symmetric(),
        0 <= c < links.clusters().len(),
        0 <= a < links.n(),
        0 <= b < links.n(),
        links.clusters()[c].contains(a as usize),
    ensures
        links.clusters()[c].contains(b as usize) <==> links.connected(a, b),
{
    let cs = links.clusters();
    links.lemma_gathered(links.n() as int);
    if links.connected(a, b) {
        let k = choose|k: nat| links.steps(k, a, b);
        links.lemma_stays(k, c, a, b);
    }
    if cs[c].contains(b as usize) {
        let i = choose|i: int| 0 <= i < cs[c].len() && cs[c][i] == a as usize;
        let j = choose|j: int| 0 <= j < cs[c].len() && cs[c][j] == b as usize;
        let s = cs[c][0] as int;
        assert(links.connected(s, cs[c][i] as int));
        assert(links.connected(s, cs[c][j] as int));
        let k = choose|k: nat| links.steps(k, s, a);
        let l = choose|l: nat| links.steps(l, s, b);
        links.lemma_reverse(k, s, a);
        links.lemma_onwards(k, l, a, s, b);
    }
}

proof fn lemma_search_closes(links: Web, seed: int, found: Seq<usize>, k: nat, x: int)
    requires
        links.well_formed(),
        0 <= seed < links.n(),
        found.contains(seed as usize),
        forall|b: int, j: usize|
            0 <= b < found.len() && j < links.n() && #[trigger] links.is_near(
                found[b] as int,
                j as int,
            ) ==> found.contains(j),
        links.steps(k, seed, x),
    ensures
        0 <= x < links.n(),
        found.contains(x as usize),
    decreases k,
{
    if k > 0 {
        let p = choose|p: int| #[trigger] links.leads(p, x) && links.steps((k - 1) as nat, seed, p);
        lemma_search_closes(links, seed, found, (k - 1) as nat, p);
        let b = choose|b: int| 0 <= b < found.len() && found[b] == p as usize;
        assert(links.is_near(found[b] as int, (x as usize) as int));
    }
}

/// A search that starts afresh finds exactly what steps between near things
/// lead to, and nothing but things.
pub proof fn a_search_finds_what_is_connected(links: Web, seed: int, x: int)
    requires
        links.well_formed(),
        0 <= seed < links.n(),
        0 <= x < links.n(),
    ensures
        links.flood_from(Seq::new(links.n(), |j: int| false), seed).1.contains(x as usize)
            <==> links.connected(seed, x),
        crate::selection::all_below(
            links.flood_from(Seq::new(links.n(), |j: int| false), seed).1,
            links.n() as int,
        ),
{
    let none = Seq::new(links.n(), |j: int| false);
    let start = none.update(seed, true);
    let waiting = seq![seed as usize];
    let empty = Seq::<usize>::empty();
    assert(links.steps(0, seed, seed));
    assert(waiting[0] == seed as usize);
    assert forall|j: usize| j < links.n() && #[trigger] start[j as int] && !none[j as int] implies waiting.contains(
        j,
    ) by {
        assert(waiting[0] == j);
    }
    assert(links.searching(none, seed, start, waiting, empty));
    links.lemma_search(none, seed, start, waiting, empty);
    let (after, found) = links.flood(start, waiting, empty);
    assert(found[0] == seed as usize);
    if links.connected(seed, x) {
        let k = choose|k: nat| links.steps(k, seed, x);
        assert forall|b: int, j: usize|
            0 <= b < found.len() && j < links.n() && #[trigger] links.is_near(
                found[b] as int,
                j as int,
            ) implies found.contains(j) by {
            assert(after[j as int]);
        }
        lemma_search_closes(links, seed, found, k, x);
    }
    if found.contains(x as usize) {
        let b = choose|b: int| 0 <= b < found.len() && found[b] == x as usize;
        assert(links.connected(seed, found[b] as int));
    }
}

/// Blocks are near each other by the distance of their centres, and the things of
/// a table by its entry in the row of one and the column of the other.
pub proof fn nearness_is_what_was_measured(
    rects: Seq<Block>,
    num: int,
    den: int,
    length: int,
    n: nat,
    near: Seq<bool>,
    i: int,
    j: int,
)
    ensures
        (Web::Table { n, near }).is_near(i, j) == near[i * n + j],
        (Web::Table { n, near }).n() == n,
        (Web::Blocks { rects, num, den, length }).n() == rects.len(),
        (Web::Blocks { rects, num, den, length }).is_near(i, j) <==> ({
            let a = rects[i];
            let b = rects[j];
            let dx = (2 * a.x + a.w) - (2 * b.x + b.w);
            let dy = (2 * a.y + a.h) - (2 * b.y + b.h);
            (den * den) * (dx * dx + dy * dy) <= (4 * (num * num)) * (length * length)
        }),
{
    crate::distance::distances_are_of_centres(rects[i], rects[j], num, den, length);
}

/// A thing near one of a cluster belongs to the cluster.
pub proof fn near_things_share_a_cluster(links: Web, c: int, a: int, b: int)
    requires
        links.well_formed(),
        links.symmetric(),
        0 <= c < links.clusters().len(),
        0 <= a < links.n(),
        0 <= b < links.n(),
        links.clusters()[c].contains(a as usize),
        links.is_near(a, b),
    ensures
        links.clusters()[c].contains(b as usize),
{
    assert(links.steps(0, a, a));
    assert(links.leads(a, b));
    assert(links.steps(1, a, b)) by {
        assert(links.leads(a, b) && links.steps((1 - 1) as nat, a, a));
    }
    clusters_are_what_is_connected(links, c, a, b);
}

} // verus!
