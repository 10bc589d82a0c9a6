//! Counting what is still unmarked.

use vstd::prelude::*;

verus! {

/// The number of entries that are not marked.
pub open spec fn unmarked(marks: Seq<bool>) -> nat
    decreases marks.len(),
{
    if marks.len() == 0 {
        0
    } else {
        unmarked(marks.drop_last()) + if marks.last() {
            0nat
        } else {
            1nat
        }
    }
}

/// Marking one entry leaves one less unmarked.
pub proof fn marking_counts_down(marks: Seq<bool>, i: int)
    requires
        0 <= i < marks.len(),
        !marks[i],
    ensures
        unmarked(marks.update(i, true)) + 1 == unmarked(marks),
    decreases marks.len(),
{
    let after = marks.update(i, true);
    if i == marks.len() - 1 {
        assert(after.drop_last() == marks.drop_last());
    } else {
        marking_counts_down(marks.drop_last(), i);
        assert(after.drop_last() == marks.drop_last().update(i, true));
    }
}

/// Where nothing is marked, all entries count.
pub proof fn none_marked(marks: Seq<bool>)
    requires
        forall|i: int| 0 <= i < marks.len() ==> !marks[i],
    ensures
        unmarked(marks) == marks.len(),
    decreases marks.len(),
{
    if marks.len() > 0 {
        none_marked(marks.drop_last());
    }
}

/// A list of marks, none of them set.
pub fn blank(n: usize) -> (r: Vec<bool>)
    ensures
        r@.len() == n,
        forall|i: int| 0 <= i < n ==> !r@[i],
        unmarked(r@) == n,
{
    let mut r: Vec<bool> = Vec::new();
    let mut i: usize = 0;
    while i < n
        invariant
            0 <= i <= n,
            r@.len() == i,
            forall|k: int| 0 <= k < i ==> !r@[k],
        decreases n - i,
    {
        r.push(false);
        i = i + 1;
    }
    proof {
        none_marked(r@);
    }
    r
}

/// Entries are counted one by one: each that is not marked adds one, and a marked
/// one adds nothing.
pub proof fn entries_are_counted_one_by_one(marks: Seq<bool>)
    ensures
        unmarked(Seq::empty()) == 0,
        unmarked(marks.push(false)) == unmarked(marks) + 1,
        unmarked(marks.push(true)) == unmarked(marks),
{
    assert(marks.push(false).drop_last() == marks);
    assert(marks.push(true).drop_last() == marks);
}

} // verus!
