//! Which blocks are background and which belong to geometric structure.
//!
//! Skin-coloured walls, sky and floors reach in from the frame's border. They
//! are marked from there: seeds on the border, two careful steps inwards, and
//! then a fill that stops a few blocks deep. Railings and trim show up as
//! level runs of blocks that look like eyes while the rows next to them do not.

use crate::counting::blank;
use crate::marks::{AT_0035, AT_005, AT_006, AT_007, AT_015, AT_035, AT_065};
use crate::rank::Rank;
use vstd::prelude::*;

verus! {

/// How deep the fill may go, in blocks from the border.
pub const MAX_DEPTH: usize = 3;

/// How deep a block may be and still pass the mark on in the careful steps.
pub const CREEP_DEPTH: usize = 2;

/// The shortest run of blocks that counts as structure.
pub const MIN_RUN: usize = 5;

/// Average measurements of each block, row by row.
pub struct BlockField {
    pub cols: usize,
    pub rows: usize,
    /// The average skin score.
    pub skin: Vec<Rank>,
    /// The eye-band score.
    pub eye: Vec<Rank>,
    /// The average of the clear gradients.
    pub mag: Vec<Rank>,
}

/// What is known of each block, row by row.
pub struct BgFlags {
    /// The blocks that are background.
    pub bg_block: Vec<bool>,
    /// The blocks that belong to a geometric run.
    pub geom_block: Vec<bool>,
    pub n_cols: usize,
    pub n_rows: usize,
}

impl BlockField {
    /// The number of blocks.
    pub open spec fn n(&self) -> int {
        self.rows * self.cols
    }

    /// There is one measurement of each kind for each block.
    pub open spec fn well_formed(&self) -> bool {
        &&& self.skin@.len() == self.n()
        &&& self.eye@.len() == self.n()
        &&& self.mag@.len() == self.n()
    }

    pub open spec fn row(&self, i: int) -> int {
        i / self.cols as int
    }

    pub open spec fn col(&self, i: int) -> int {
        i % self.cols as int
    }

    /// The distance of a block from the border of the frame, in blocks.
    pub open spec fn depth(&self, i: int) -> int {
        let across = crate::grid::least(self.col(i), self.cols - 1 - self.col(i));
        let along = crate::grid::least(self.row(i), self.rows - 1 - self.row(i));
        crate::grid::least(along, across)
    }

    /// Whether two blocks share an edge.
    pub open spec fn adjacent(&self, i: int, j: int) -> bool {
        &&& 0 <= i < self.n()
        &&& 0 <= j < self.n()
        &&& (self.row(i) == self.row(j) && (self.col(i) == self.col(j) + 1 || self.col(j)
            == self.col(i) + 1)) || (self.col(i) == self.col(j) && (self.row(i) == self.row(j) + 1
            || self.row(j) == self.row(i) + 1))
    }

    /// A border block with much skin and no eyes.
    pub open spec fn is_seed(&self, i: int) -> bool {
        &&& 0 <= i < self.n()
        &&& self.depth(i) == 0
        &&& self.skin@[i] > AT_035
        &&& self.eye@[i] < AT_005
    }

    /// A block that a careful step marks: nearly all skin and nearly flat.
    pub open spec fn creeps(&self, i: int) -> bool {
        self.skin@[i] > AT_065 && self.eye@[i] < AT_015 && self.mag@[i] < AT_0035
    }

    /// A block that the fill marks: skin without eyes or texture, not deep
    /// inside the frame.
    pub open spec fn fills(&self, i: int) -> bool {
        &&& self.depth(i) <= MAX_DEPTH
        &&& self.skin@[i] > AT_035
        &&& self.eye@[i] < AT_005
        &&& self.mag@[i] < AT_006
    }

    /// Whether step number `k` passes the mark from block `j` on to `i`: the
    /// first two steps are careful, those after them fill.
    pub open spec fn passes_on(&self, k: nat, j: int, i: int) -> bool {
        &&& self.adjacent(j, i)
        &&& if k <= 2 {
            self.depth(j) <= CREEP_DEPTH && self.creeps(i)
        } else {
            self.fills(i)
        }
    }

    /// Whether a block is marked after `k` steps from the seeds.
    pub open spec fn marked_after(&self, k: nat, i: int) -> bool
        decreases k,
    {
        if k == 0 {
            self.is_seed(i)
        } else {
            ||| self.marked_after((k - 1) as nat, i)
            ||| exists|j: int|
                self.marked_after((k - 1) as nat, j) && #[trigger] self.passes_on(k, j, i)
        }
    }

    /// Whether a block is background: marked after some number of steps.
    pub open spec fn is_background(&self, i: int) -> bool {
        exists|k: nat| self.marked_after(k, i)
    }

    /// Whether a block looks like structure: clear gradients and eye-like.
    pub open spec fn active(&self, row: int, col: int) -> bool {
        &&& 0 <= col < self.cols
        &&& self.mag@[row * self.cols + col] >= AT_007
        &&& self.eye@[row * self.cols + col] >= AT_005
    }

    /// Whether a run of such blocks fills the columns `from` to `to` of a row
    /// and cannot be made longer.
    pub open spec fn is_run(&self, row: int, from: int, to: int) -> bool {
        &&& 0 <= from <= to < self.cols
        &&& forall|c: int| from <= c <= to ==> self.active(row, c)
        &&& !self.active(row, from - 1)
        &&& !self.active(row, to + 1)
    }

    /// The number of blocks without eyes in the columns `from` up to `end` of
    /// a row.
    pub open spec fn quiet_count(&self, row: int, from: int, end: int) -> nat
        decreases end - from,
    {
        if end <= from {
            0
        } else {
            self.quiet_count(row, from, end - 1) + if self.eye@[row * self.cols + end - 1]
                < AT_005 {
                1nat
            } else {
                0nat
            }
        }
    }

    /// Whether a row is outside the field or mostly free of eyes over the
    /// columns `from` to `to`.
    pub open spec fn quiet_beside(&self, row: int, from: int, to: int) -> bool {
        !(0 <= row < self.rows) || self.quiet_count(row, from, to + 1) > (to - from + 1) * 2 / 3
    }

    /// Whether a run stands alone: it is long, and the row above or below it
    /// is quiet.
    pub open spec fn stands_alone(&self, row: int, from: int, to: int) -> bool {
        &&& to - from + 1 >= MIN_RUN
        &&& self.quiet_beside(row - 1, from, to) || self.quiet_beside(row + 1, from, to)
    }

    /// Whether a block belongs to a run that stands alone.
    pub open spec fn is_geometric(&self, row: int, col: int) -> bool {
        exists|from: int, to: int| #[trigger]
            self.is_run(row, from, to) && from <= col <= to && self.stands_alone(row, from, to)
    }

    /// The marks and the list of marked blocks agree.
    spec fn tracks(&self, marked: Seq<bool>, queue: Seq<usize>) -> bool {
        &&& marked.len() == self.n()
        &&& crate::counting::unmarked(marked) + queue.len() == self.n()
        &&& forall|m: int| 0 <= m < queue.len() ==> #[trigger] queue[m] < self.n()
        &&& forall|m: int| 0 <= m < queue.len() ==> marked[#[trigger] queue[m] as int]
        &&& forall|i: int| 0 <= i < self.n() && #[trigger] marked[i] ==> queue.contains(i as usize)
    }

    spec fn eligible(&self, careful: bool, i: int) -> bool {
        if careful {
            self.creeps(i)
        } else {
            self.fills(i)
        }
    }

    proof fn lemma_cell(&self, i: int)
        requires
            0 <= i < self.n(),
        ensures
            0 < self.cols,
            0 <= self.row(i) < self.rows,
            0 <= self.col(i) < self.cols,
            i == self.row(i) * self.cols + self.col(i),
    {
        let c = self.cols as int;
        assert(0 < c) by (nonlinear_arith)
            requires
                0 <= c,
                0 <= i < self.rows * c,
        ;
        vstd::arithmetic::div_mod::lemma_fundamental_div_mod(i, c);
        vstd::arithmetic::div_mod::lemma_mod_bound(i, c);
        let q = i / c;
        assert(q < self.rows && 0 <= q && i == q * c + i % c) by (nonlinear_arith)
            requires
                i == c * q + i % c,
                0 <= i % c < c,
                0 <= i < self.rows * c,
        ;
    }

    proof fn lemma_cell_at(&self, row: int, col: int)
        requires
            0 <= row < self.rows,
            0 <= col < self.cols,
        ensures
            0 <= row * self.cols + col < self.n(),
            self.row(row * self.cols + col) == row,
            self.col(row * self.cols + col) == col,
    {
        let c = self.cols as int;
        vstd::arithmetic::div_mod::lemma_fundamental_div_mod_converse(row * c + col, c, row, col);
        assert(0 <= row * c + col < self.rows * c) by (nonlinear_arith)
            requires
                0 <= row < self.rows,
                0 <= col < c,
        ;
    }

    /// The blocks above and below a block are a row of blocks away in the list.
    proof fn lemma_rows_apart(&self, row: int, col: int)
        ensures
            (row - 1) * self.cols + col == row * self.cols + col - self.cols,
            (row + 1) * self.cols + col == row * self.cols + col + self.cols,
    {
        let cols = self.cols as int;
        assert((row - 1) * cols == row * cols - cols && (row + 1) * cols == row * cols + cols)
            by (nonlinear_arith);
    }

    proof fn lemma_marks_stay(&self, k: nat, later: nat, i: int)
        requires
            self.marked_after(k, i),
            k <= later,
        ensures
            self.marked_after(later, i),
        decreases later,
    {
        if k < later {
            self.lemma_marks_stay(k, (later - 1) as nat, i);
        }
    }

    proof fn lemma_marked_in_field(&self, k: nat, i: int)
        requires
            self.marked_after(k, i),
        ensures
            0 <= i < self.n(),
        decreases k,
    {
        if k > 0 && !self.marked_after((k - 1) as nat, i) {
            let j = choose|j: int|
                self.marked_after((k - 1) as nat, j) && #[trigger] self.passes_on(k, j, i);
            assert(self.adjacent(j, i));
        } else if k > 0 {
            self.lemma_marked_in_field((k - 1) as nat, i);
        }
    }

    fn depth_of(&self, i: usize) -> (r: usize)
        requires
            self.well_formed(),
            i < self.n(),
        ensures
            r == self.depth(i as int),
    {
        proof {
            self.lemma_cell(i as int);
        }
        let row: usize = i / self.cols;
        let col: usize = i % self.cols;
        let along: usize = if row <= self.rows - 1 - row {
            row
        } else {
            self.rows - 1 - row
        };
        let across: usize = if col <= self.cols - 1 - col {
            col
        } else {
            self.cols - 1 - col
        };
        if along <= across {
            along
        } else {
            across
        }
    }

    fn is_eligible(&self, careful: bool, i: usize) -> (r: bool)
        requires
            self.well_formed(),
            i < self.n(),
        ensures
            r == self.eligible(careful, i as int),
    {
        if careful {
            self.skin[i] > AT_065 && self.eye[i] < AT_015 && self.mag[i] < AT_0035
        } else {
            self.depth_of(i) <= MAX_DEPTH && self.skin[i] > AT_035 && self.eye[i] < AT_005
                && self.mag[i] < AT_006
        }
    }

    /// Marks one block if it is eligible and not marked yet.
    fn consider(&self, careful: bool, i: usize, marked: &mut Vec<bool>, queue: &mut Vec<usize>)
        requires
            self.well_formed(),
            i < self.n(),
            self.tracks(old(marked)@, old(queue)@),
        ensures
            self.tracks(final(marked)@, final(queue)@),
            forall|j: int|
                0 <= j < self.n() ==> #[trigger] final(marked)@[j] == (old(marked)@[j] || (j == i
                    && self.eligible(careful, j))),
            final(queue)@.len() >= old(queue)@.len(),
            final(queue)@.take(old(queue)@.len() as int) == old(queue)@,
    {
        let ghost marked0 = marked@;
        let ghost queue0 = queue@;
        if !marked[i] && self.is_eligible(careful, i) {
            marked.set(i, true);
            queue.push(i);
            proof {
                crate::counting::marking_counts_down(marked0, i as int);
                assert forall|j: int| 0 <= j < self.n() && #[trigger] marked@[j] implies queue@.contains(
                    j as usize,
                ) by {
                    if j == i {
                        assert(queue@[queue0.len() as int] == i);
                    } else {
                        assert(marked0[j]);
                        let m = choose|m: int| 0 <= m < queue0.len() && queue0[m] == j as usize;
                        assert(queue@[m] == j as usize);
                    }
                }
            }
        }
        assert(queue@.take(queue0.len() as int) == queue0);
    }

    /// Marks the eligible neighbours of a block.
    fn spread(&self, careful: bool, i: usize, marked: &mut Vec<bool>, queue: &mut Vec<usize>)
        requires
            self.well_formed(),
            i < self.n(),
            self.tracks(old(marked)@, old(queue)@),
        ensures
            self.tracks(final(marked)@, final(queue)@),
            forall|j: int|
                0 <= j < self.n() ==> #[trigger] final(marked)@[j] == (old(marked)@[j] || (
                self.adjacent(i as int, j) && self.eligible(careful, j))),
            final(queue)@.len() >= old(queue)@.len(),
            final(queue)@.take(old(queue)@.len() as int) == old(queue)@,
    {
        let ghost q0 = queue@;
        let ghost m0 = marked@;
        proof {
            self.lemma_cell(i as int);
            assert(self.skin.len() <= usize::MAX);
        }
        let cols: usize = self.cols;
        let row: usize = i / cols;
        let col: usize = i % cols;
        proof {
            self.lemma_rows_apart(row as int, col as int);
        }
        if row > 0 {
            proof {
                self.lemma_cell_at(row - 1, col as int);
            }
            self.consider(careful, i - cols, marked, queue);
        }
        let ghost q1 = queue@;
        assert(q1.take(q0.len() as int) == q0);
        if row + 1 < self.rows {
            proof {
                self.lemma_cell_at(row + 1, col as int);
            }
            self.consider(careful, i + cols, marked, queue);
        }
        let ghost q2 = queue@;
        assert(q2.take(q0.len() as int) == q0) by {
            assert(q2.take(q1.len() as int) == q1);
            assert(q2.take(q0.len() as int) == q1.take(q0.len() as int));
        }
        if col > 0 {
            proof {
                self.lemma_cell_at(row as int, col - 1);
            }
            self.consider(careful, i - 1, marked, queue);
        }
        let ghost q3 = queue@;
        assert(q3.take(q0.len() as int) == q0) by {
            assert(q3.take(q2.len() as int) == q2);
            assert(q3.take(q0.len() as int) == q2.take(q0.len() as int));
        }
        if col + 1 < cols {
            proof {
                self.lemma_cell_at(row as int, col + 1);
            }
            self.consider(careful, i + 1, marked, queue);
        }
        assert(queue@.take(q0.len() as int) == q0) by {
            assert(queue@.take(q3.len() as int) == q3);
            assert(queue@.take(q0.len() as int) == q3.take(q0.len() as int));
        }
        proof {
            assert forall|j: int| 0 <= j < self.n() implies #[trigger] marked@[j] == (m0[j] || (
            self.adjacent(i as int, j) && self.eligible(careful, j))) by {
                self.lemma_cell(j);
                if !self.adjacent(i as int, j) {
                    if row > 0 && j == i - cols {
                        self.lemma_cell_at(row - 1, col as int);
                    }
                    if row + 1 < self.rows && j == i + cols {
                        self.lemma_cell_at(row + 1, col as int);
                    }
                    if col > 0 && j == i - 1 {
                        self.lemma_cell_at(row as int, col - 1);
                    }
                    if col + 1 < cols && j == i + 1 {
                        self.lemma_cell_at(row as int, col + 1);
                    }
                }
            }
        }
    }

    /// Marks the seeds.
    fn plant(&self, marked: &mut Vec<bool>, queue: &mut Vec<usize>)
        requires
            self.well_formed(),
            self.tracks(old(marked)@, old(queue)@),
            forall|i: int| 0 <= i < self.n() ==> !old(marked)@[i],
        ensures
            self.tracks(final(marked)@, final(queue)@),
            forall|i: int|
                0 <= i < self.n() ==> #[trigger] final(marked)@[i] == self.marked_after(0, i),
    {
        let mut i: usize = 0;
        while i < self.skin.len()
            invariant
                self.well_formed(),
                0 <= i <= self.n(),
                self.tracks(marked@, queue@),
                forall|j: int| 0 <= j < i ==> #[trigger] marked@[j] == self.is_seed(j),
                forall|j: int| i <= j < self.n() ==> !#[trigger] marked@[j],
            decreases self.n() - i,
        {
            if self.depth_of(i) == 0 && self.skin[i] > AT_035 && self.eye[i] < AT_005 {
                let ghost marked0 = marked@;
                let ghost queue0 = queue@;
                marked.set(i, true);
                queue.push(i);
                proof {
                    crate::counting::marking_counts_down(marked0, i as int);
                    assert forall|j: int|
                        0 <= j < self.n() && #[trigger] marked@[j] implies queue@.contains(
                        j as usize,
                    ) by {
                        if j == i {
                            assert(queue@[queue0.len() as int] == i);
                        } else {
                            assert(marked0[j]);
                            let m = choose|m: int|
                                0 <= m < queue0.len() && queue0[m] == j as usize;
                            assert(queue@[m] == j as usize);
                        }
                    }
                }
            }
            i = i + 1;
        }
    }

    /// One careful step: step number `k` of the marking.
    fn creep(&self, k: u8, marked: &mut Vec<bool>, queue: &mut Vec<usize>)
        requires
            self.well_formed(),
            1 <= k <= 2,
            self.tracks(old(marked)@, old(queue)@),
            forall|i: int|
                0 <= i < self.n() ==> #[trigger] old(marked)@[i] == self.marked_after(
                    (k - 1) as nat,
                    i,
                ),
        ensures
            self.tracks(final(marked)@, final(queue)@),
            forall|i: int|
                0 <= i < self.n() ==> #[trigger] final(marked)@[i] == self.marked_after(
                    k as nat,
                    i,
                ),
    {
        let ghost m0 = marked@;
        let ghost q0 = queue@;
        let end: usize = queue.len();
        let mut m: usize = 0;
        while m < end
            invariant
                self.well_formed(),
                0 <= m <= end,
                end == q0.len(),
                end <= queue@.len(),
                queue@.take(end as int) == q0,
                self.tracks(m0, q0),
                self.tracks(marked@, queue@),
                forall|i: int|
                    0 <= i < self.n() ==> #[trigger] marked@[i] == (m0[i] || exists|a: int|
                        0 <= a < m && self.depth(#[trigger] q0[a] as int) <= CREEP_DEPTH
                            && self.adjacent(q0[a] as int, i) && self.creeps(i)),
            decreases end - m,
        {
            let idx = queue[m];
            assert(idx == q0[m as int]) by {
                assert(queue@.take(end as int)[m as int] == q0[m as int]);
            }
            let ghost before = marked@;
            if self.depth_of(idx) <= CREEP_DEPTH {
                let ghost qb = queue@;
                self.spread(true, idx, marked, queue);
                assert(queue@.take(end as int) == q0) by {
                    assert(queue@.take(end as int) == queue@.take(qb.len() as int).take(
                        end as int,
                    ));
                }
            }
            proof {
                assert forall|i: int| 0 <= i < self.n() implies #[trigger] marked@[i] == (m0[i]
                    || exists|a: int|
                    0 <= a < m + 1 && self.depth(#[trigger] q0[a] as int) <= CREEP_DEPTH
                        && self.adjacent(q0[a] as int, i) && self.creeps(i)) by {
                    if marked@[i] {
                        if before[i] {
                            if !m0[i] {
                                let a = choose|a: int|
                                    0 <= a < m && self.depth(#[trigger] q0[a] as int) <= CREEP_DEPTH
                                        && self.adjacent(q0[a] as int, i) && self.creeps(i);
                                assert(0 <= a < m + 1 && self.depth(q0[a] as int) <= CREEP_DEPTH);
                            }
                        } else {
                            assert(self.depth(q0[m as int] as int) <= CREEP_DEPTH);
                        }
                    }
                }
            }
            m = m + 1;
        }
        proof {
            assert forall|i: int| 0 <= i < self.n() implies #[trigger] marked@[i]
                == self.marked_after(k as nat, i) by {
                assert(m0[i] == self.marked_after((k - 1) as nat, i));
                if m0[i] {
                    self.lemma_marks_stay((k - 1) as nat, k as nat, i);
                }
                if marked@[i] && !m0[i] {
                    let a = choose|a: int|
                        0 <= a < end && self.depth(#[trigger] q0[a] as int) <= CREEP_DEPTH
                            && self.adjacent(q0[a] as int, i) && self.creeps(i);
                    assert(m0[q0[a] as int]);
                    assert(self.marked_after((k - 1) as nat, q0[a] as int));
                    assert(self.passes_on(k as nat, q0[a] as int, i));
                }
                if self.marked_after(k as nat, i) && !m0[i] {
                    let j = choose|j: int|
                self.marked_after((k - 1) as nat, j) && #[trigger] self.passes_on(k as nat, j, i);
                    assert(m0[j]);
                    assert(self.skin.len() <= usize::MAX);
                    assert(q0.contains(j as usize));
                    let a = choose|a: int| 0 <= a < q0.len() && q0[a] == j as usize;
                    assert(q0[a] as int == j);
                    assert(self.depth(q0[a] as int) <= CREEP_DEPTH);
                }
            }
        }
    }

    /// Everything that the steps can mark is marked, if the second step's
    /// marks are and the marks are closed under filling.
    proof fn lemma_closed(&self, marked: Seq<bool>, k: nat, i: int)
        requires
            marked.len() == self.n(),
            forall|i: int| #[trigger] self.marked_after(2, i) ==> marked[i],
            forall|j: int, i: int|
                0 <= j < self.n() && #[trigger] marked[j] && #[trigger] self.adjacent(j, i)
                    && self.fills(i) ==> marked[i],
            self.marked_after(k, i),
        ensures
            marked[i],
        decreases k,
    {
        if k <= 2 {
            self.lemma_marks_stay(k, 2, i);
        } else if self.marked_after((k - 1) as nat, i) {
            self.lemma_closed(marked, (k - 1) as nat, i);
        } else {
            let j = choose|j: int|
                self.marked_after((k - 1) as nat, j) && #[trigger] self.passes_on(k, j, i);
            self.lemma_closed(marked, (k - 1) as nat, j);
            self.lemma_marked_in_field((k - 1) as nat, j);
        }
    }

    /// Fills from what is marked until nothing more can be.
    fn fill(&self, marked: &mut Vec<bool>, queue: &mut Vec<usize>)
        requires
            self.well_formed(),
            self.tracks(old(marked)@, old(queue)@),
            forall|i: int|
                0 <= i < self.n() ==> #[trigger] old(marked)@[i] == self.marked_after(2, i),
        ensures
            final(marked)@.len() == self.n(),
            forall|i: int|
                0 <= i < self.n() ==> #[trigger] final(marked)@[i] == self.is_background(i),
    {
        let mut head: usize = 0;
        proof {
            assert forall|i: int| 0 <= i < self.n() && #[trigger] marked@[i] implies exists|k: nat|
                k >= 2 && self.marked_after(k, i) by {
                assert(self.marked_after(2, i));
            }
        }
        while head < queue.len()
            invariant
                self.well_formed(),
                self.tracks(marked@, queue@),
                0 <= head <= queue@.len(),
                forall|i: int|
                    0 <= i < self.n() && #[trigger] self.marked_after(2, i) ==> marked@[i],
                forall|i: int|
                    0 <= i < self.n() && #[trigger] marked@[i] ==> exists|k: nat|
                        k >= 2 && self.marked_after(k, i),
                forall|a: int, i: int|
                    0 <= a < head && #[trigger] self.adjacent(queue@[a] as int, i) && self.fills(i)
                        ==> marked@[i],
            decreases self.n() - head,
        {
            let idx = queue[head];
            let ghost before = marked@;
            let ghost q0 = queue@;
            self.spread(false, idx, marked, queue);
            proof {
                assert forall|a: int| 0 <= a < q0.len() implies queue@[a] == q0[a] by {
                    assert(queue@.take(q0.len() as int)[a] == q0[a]);
                }
                assert forall|i: int| 0 <= i < self.n() && #[trigger] marked@[i] implies exists|
                    k: nat,
                | k >= 2 && self.marked_after(k, i) by {
                    if before[i] {
                        let k = choose|k: nat| k >= 2 && self.marked_after(k, i);
                        assert(k >= 2 && self.marked_after(k, i));
                    } else {
                        assert(before[idx as int]);
                        let k = choose|k: nat| k >= 2 && self.marked_after(k, idx as int);
                        assert(self.marked_after(k, idx as int));
                        assert(self.passes_on(k + 1, idx as int, i));
                        assert(self.marked_after(((k + 1) - 1) as nat, idx as int));
                        assert(self.marked_after(k + 1, i));
                    }
                }
                assert forall|a: int, i: int|
                    0 <= a < head + 1 && #[trigger] self.adjacent(queue@[a] as int, i)
                        && self.fills(i) implies marked@[i] by {
                    if a < head {
                        assert(self.adjacent(q0[a] as int, i));
                        assert(before[i]);
                    }
                }
            }
            head = head + 1;
        }
        proof {
            assert forall|i: int| 0 <= i < self.n() implies #[trigger] marked@[i]
                == self.is_background(i) by {
                if marked@[i] {
                    let k = choose|k: nat| k >= 2 && self.marked_after(k, i);
                    assert(self.marked_after(k, i));
                }
                if self.is_background(i) {
                    let k = choose|k: nat| self.marked_after(k, i);
                    assert forall|i: int| #[trigger] self.marked_after(2, i) implies marked@[i] by {
                        self.lemma_marked_in_field(2, i);
                    }
                    assert forall|j: int, i: int|
                        0 <= j < self.n() && #[trigger] marked@[j] && #[trigger] self.adjacent(j, i)
                            && self.fills(i) implies marked@[i] by {
                        assert(self.skin.len() <= usize::MAX);
                        assert(queue@.contains(j as usize));
                        let a = choose|a: int| 0 <= a < queue@.len() && queue@[a] == j as usize;
                        assert(queue@[a] as int == j);
                        assert(self.adjacent(queue@[a] as int, i));
                    }
                    self.lemma_closed(marked@, k, i);
                }
            }
        }
    }

    /// A block belongs to at most one run.
    proof fn lemma_one_run(&self, row: int, from: int, to: int, col: int)
        requires
            self.is_run(row, from, to),
            from <= col <= to,
        ensures
            self.is_geometric(row, col) == self.stands_alone(row, from, to),
    {
        if self.is_geometric(row, col) {
            let (a, b) = choose|a: int, b: int| #[trigger]
                self.is_run(row, a, b) && a <= col <= b && self.stands_alone(row, a, b);
            assert(a == from) by {
                if a < from {
                    assert(self.active(row, from - 1));
                } else if from < a {
                    assert(self.active(row, a - 1));
                }
            }
            assert(b == to) by {
                if b < to {
                    assert(self.active(row, b + 1));
                } else if to < b {
                    assert(self.active(row, to + 1));
                }
            }
        }
    }

    fn is_active(&self, row: usize, col: usize) -> (r: bool)
        requires
            self.well_formed(),
            row < self.rows,
        ensures
            r == self.active(row as int, col as int),
    {
        if col >= self.cols {
            return false;
        }
        proof {
            self.lemma_cell_at(row as int, col as int);
            self.lemma_row_start(row as int);
            assert(self.skin.len() <= usize::MAX);
        }
        let i: usize = row * self.cols + col;
        self.mag[i] >= AT_007 && self.eye[i] >= AT_005
    }

    proof fn lemma_row_start(&self, row: int)
        requires
            0 <= row < self.rows,
        ensures
            0 <= row * self.cols <= self.n(),
    {
        assert(0 <= row * self.cols <= self.rows * self.cols) by (nonlinear_arith)
            requires
                0 <= row < self.rows,
                0 <= self.cols,
        ;
    }

    /// Whether a row lacks eyes over two thirds of a run's columns.
    fn is_quiet(&self, row: usize, from: usize, to: usize) -> (r: bool)
        requires
            self.well_formed(),
            row < self.rows,
            from <= to < self.cols,
        ensures
            r == self.quiet_beside(row as int, from as int, to as int),
    {
        let mut count: usize = 0;
        let mut c: usize = from;
        while c <= to
            invariant
                self.well_formed(),
                row < self.rows,
                from <= c <= to + 1,
                to < self.cols,
                count == self.quiet_count(row as int, from as int, c as int),
                count <= c - from,
            decreases to + 1 - c,
        {
            proof {
                self.lemma_cell_at(row as int, c as int);
                self.lemma_row_start(row as int);
                assert(self.skin.len() <= usize::MAX);
            }
            if self.eye[row * self.cols + c] < AT_005 {
                count = count + 1;
            }
            c = c + 1;
        }
        let len: usize = to - from + 1;
        count as u128 > len as u128 * 2 / 3
    }

    /// Whether the run from `from` to `to` in a row stands alone.
    fn is_alone(&self, row: usize, from: usize, to: usize) -> (r: bool)
        requires
            self.well_formed(),
            row < self.rows,
            self.is_run(row as int, from as int, to as int),
        ensures
            r == self.stands_alone(row as int, from as int, to as int),
    {
        if to - from + 1 < MIN_RUN {
            return false;
        }
        let above: bool = row == 0 || self.is_quiet(row - 1, from, to);
        let below: bool = row == self.rows - 1 || self.is_quiet(row + 1, from, to);
        above || below
    }

    /// Marks the blocks of one row that belong to a run that stands alone.
    fn mark_runs(&self, row: usize, marks: &mut Vec<bool>)
        requires
            self.well_formed(),
            row < self.rows,
            old(marks)@.len() == row * self.cols,
        ensures
            final(marks)@.len() == (row + 1) * self.cols,
            final(marks)@.take(row * self.cols) == old(marks)@,
            forall|c: int|
                0 <= c < self.cols ==> #[trigger] final(marks)@[row * self.cols + c]
                    == self.is_geometric(row as int, c),
    {
        let ghost before = marks@;
        let ghost base = row * self.cols;
        let cols: usize = self.cols;
        let mut c: usize = 0;
        while c < cols
            invariant
                self.well_formed(),
                cols == self.cols,
                row < self.rows,
                    base == row * self.cols,
                base == before.len(),
                0 <= c <= cols,
                marks@.len() == base + c,
                marks@.take(base) == before,
                c == 0 || c == cols || !self.active(row as int, c - 1) || !self.active(
                    row as int,
                    c as int,
                ),
                forall|d: int|
                    0 <= d < c ==> #[trigger] marks@[base + d] == self.is_geometric(row as int, d),
            decreases cols - c,
        {
            let ghost prior = marks@;
            if self.is_active(row, c) {
                let from: usize = c;
                assert(!self.active(row as int, from - 1));
                let mut end: usize = c + 1;
                while self.is_active(row, end)
                    invariant
                        self.well_formed(),
                        row < self.rows,
                        cols == self.cols,
                        from < end <= cols,
                        forall|d: int| from <= d < end ==> self.active(row as int, d),
                    decreases cols - end,
                {
                    end = end + 1;
                }
                assert(self.is_run(row as int, from as int, end - 1));
                let flag: bool = self.is_alone(row, from, end - 1);
                while c < end
                    invariant
                        from <= c <= end,
                        marks@.len() == base + c,
                        base >= 0,
                        base + from == prior.len(),
                        marks@.take(base + from) == prior,
                        forall|d: int| from <= d < c ==> #[trigger] marks@[base + d] == flag,
                    decreases end - c,
                {
                    let ghost m1 = marks@;
                    marks.push(flag);
                    assert(marks@.take(base + from) == m1.take(base + from));
                    c = c + 1;
                }
                proof {
                    assert(marks@.take(base) == prior.take(base)) by {
                        assert(marks@.take(base) == marks@.take(base + from).take(base));
                    }
                    assert forall|d: int| 0 <= d < c implies #[trigger] marks@[base + d]
                        == self.is_geometric(row as int, d) by {
                        if d < from {
                            assert(marks@.take(base + from)[base + d] == prior[base + d]);
                        } else {
                            self.lemma_one_run(row as int, from as int, end - 1, d);
                        }
                    }
                }
            } else {
                marks.push(false);
                proof {
                    assert(marks@.take(base) == prior.take(base));
                    assert forall|d: int| 0 <= d < c + 1 implies #[trigger] marks@[base + d]
                        == self.is_geometric(row as int, d) by {
                        if d < c {
                            assert(prior[base + d] == self.is_geometric(row as int, d));
                        } else if self.is_geometric(row as int, d) {
                            let (a, b) = choose|a: int, b: int| #[trigger]
                                self.is_run(row as int, a, b) && a <= d <= b && self.stands_alone(
                                    row as int,
                                    a,
                                    b,
                                );
                            assert(self.active(row as int, d));
                        }
                    }
                }
                c = c + 1;
            }
        }
        assert((row + 1) * self.cols == base + cols) by (nonlinear_arith)
            requires
                base == row * self.cols,
                cols == self.cols,
        ;
    }
}

/// Marks the background and the geometric structure of a field of blocks.
pub fn compute_bg_flags(field: &BlockField) -> (r: BgFlags)
    requires
        field.well_formed(),
    ensures
        r.n_cols == field.cols,
        r.n_rows == field.rows,
        r.bg_block@.len() == field.n(),
        r.geom_block@.len() == field.n(),
        forall|i: int| 0 <= i < field.n() ==> #[trigger] r.bg_block@[i] == field.is_background(i),
        forall|i: int|
            0 <= i < field.n() ==> #[trigger] r.geom_block@[i] == field.is_geometric(
                field.row(i),
                field.col(i),
            ),
{
    let n: usize = field.skin.len();
    let mut bg_block: Vec<bool> = blank(n);
    let mut queue: Vec<usize> = Vec::new();
    field.plant(&mut bg_block, &mut queue);
    field.creep(1, &mut bg_block, &mut queue);
    field.creep(2, &mut bg_block, &mut queue);
    field.fill(&mut bg_block, &mut queue);

    let mut geom_block: Vec<bool> = Vec::new();
    let mut row: usize = 0;
    while row < field.rows
        invariant
            field.well_formed(),
            0 <= row <= field.rows,
            geom_block@.len() == row * field.cols,
            forall|i: int|
                0 <= i < row * field.cols ==> #[trigger] geom_block@[i] == field.is_geometric(
                    field.row(i),
                    field.col(i),
                ),
        decreases field.rows - row,
    {
        let ghost prior = geom_block@;
        field.mark_runs(row, &mut geom_block);
        proof {
            assert((row + 1) * field.cols == row * field.cols + field.cols) by (nonlinear_arith);
            assert forall|i: int| 0 <= i < (row + 1) * field.cols implies #[trigger] geom_block@[i]
                == field.is_geometric(field.row(i), field.col(i)) by {
                let base = row * field.cols;
                if i < base {
                    assert(geom_block@.take(base)[i] == prior[i]);
                } else {
                    let c = i - base;
                    field.lemma_cell_at(row as int, c);
                    assert(i == row * field.cols + c);
                    assert(geom_block@[row * field.cols + c] == field.is_geometric(row as int, c));
                }
            }
        }
        row = row + 1;
    }
    BgFlags { bg_block, geom_block, n_cols: field.cols, n_rows: field.rows }
}

/// Background never reaches deeper than `MAX_DEPTH` blocks from the border.
pub proof fn background_hugs_the_border(field: BlockField, i: int)
    requires
        field.is_background(i),
    ensures
        0 <= i < field.n(),
        field.depth(i) <= MAX_DEPTH,
{
    let k = choose|k: nat| field.marked_after(k, i);
    lemma_shallow(field, k, i);
}

proof fn lemma_shallow(field: BlockField, k: nat, i: int)
    requires
        field.marked_after(k, i),
    ensures
        0 <= i < field.n(),
        field.depth(i) <= MAX_DEPTH,
    decreases k,
{
    if k > 0 {
        if field.marked_after((k - 1) as nat, i) {
            lemma_shallow(field, (k - 1) as nat, i);
        } else {
            let j = choose|j: int|
                field.marked_after((k - 1) as nat, j) && #[trigger] field.passes_on(k, j, i);
            field.lemma_cell(i);
            field.lemma_cell(j);
        }
    }
}

/// Every background block has nearly no eyes and much skin.
pub proof fn background_is_skin_without_eyes(field: BlockField, i: int)
    requires
        field.is_background(i),
    ensures
        field.skin@[i] > AT_035,
        field.eye@[i] < AT_015,
{
    let k = choose|k: nat| field.marked_after(k, i);
    lemma_plain(field, k, i);
}

proof fn lemma_plain(field: BlockField, k: nat, i: int)
    requires
        field.marked_after(k, i),
    ensures
        field.skin@[i] > AT_035,
        field.eye@[i] < AT_015,
    decreases k,
{
    if k > 0 {
        if field.marked_after((k - 1) as nat, i) {
            lemma_plain(field, (k - 1) as nat, i);
        } else {
            let j = choose|j: int|
                field.marked_after((k - 1) as nat, j) && #[trigger] field.passes_on(k, j, i);
            assert(field.passes_on(k, j, i));
        }
    }
}

/// A block is as deep as its row and its column are from the nearest border of the
/// field.
pub proof fn depth_is_counted_from_the_border(field: BlockField, row: int, col: int)
    requires
        0 <= row < field.rows,
        0 <= col < field.cols,
    ensures
        ({
            let d = field.depth(row * field.cols + col);
            &&& d <= row && d <= col
            &&& d <= field.rows - 1 - row && d <= field.cols - 1 - col
            &&& d == row || d == col || d == field.rows - 1 - row || d == field.cols - 1 - col
        }),
        field.row(row * field.cols + col) == row,
        field.col(row * field.cols + col) == col,
{
    field.lemma_cell_at(row, col);
}

/// Blocks share an edge if they are next to each other in a row or in a column.
pub proof fn neighbours_are_next_to_each_other(field: BlockField, row: int, col: int, r: int, c: int)
    requires
        0 <= row < field.rows,
        0 <= col < field.cols,
        0 <= r < field.rows,
        0 <= c < field.cols,
    ensures
        field.adjacent(row * field.cols + col, r * field.cols + c) <==> (row == r && (col == c + 1 || c
            == col + 1)) || (col == c && (row == r + 1 || r == row + 1)),
{
    field.lemma_cell_at(row, col);
    field.lemma_cell_at(r, c);
}

/// A border block with more than 0.35 of skin and less than 0.05 of an eye band is
/// background.
pub proof fn skin_on_the_border_is_background(field: BlockField, i: int)
    requires
        0 <= i < field.n(),
        field.depth(i) == 0,
        field.skin@[i] > AT_035,
        field.eye@[i] < AT_005,
    ensures
        field.is_background(i),
{
    assert(field.marked_after(0, i));
}

/// Background spreads over plain skin: a block next to it that is three deep at
/// most, has more than 0.35 of skin, less than 0.05 of an eye band and less than
/// 0.06 of gradients is background too.
pub proof fn background_spreads_over_plain_skin(field: BlockField, j: int, i: int)
    requires
        field.is_background(j),
        field.adjacent(j, i),
        field.depth(i) <= 3,
        field.skin@[i] > AT_035,
        field.eye@[i] < AT_005,
        field.mag@[i] < AT_006,
    ensures
        field.is_background(i),
{
    let k = choose|k: nat| field.marked_after(k, j);
    field.lemma_marks_stay(k, k + 2, j);
    assert(field.passes_on(k + 3, j, i));
    assert(field.marked_after(((k + 3) - 1) as nat, j));
    assert(field.marked_after(k + 3, i));
}

/// Background creeps two steps in from the border over what is nearly all skin:
/// a block with more than 0.65 of skin, less than 0.15 of an eye band and less than
/// 0.035 of gradients is background if it is next to a seed, or next to such a
/// block beside a seed.
pub proof fn background_creeps_two_steps(field: BlockField, s: int, j: int, i: int)
    requires
        field.is_seed(s),
        field.adjacent(s, j),
        field.skin@[j] > AT_065,
        field.eye@[j] < AT_015,
        field.mag@[j] < AT_0035,
    ensures
        field.is_background(j),
        field.adjacent(j, i) && field.skin@[i] > AT_065 && field.eye@[i] < AT_015 && field.mag@[i]
            < AT_0035 ==> field.is_background(i),
{
    field.lemma_cell(s);
    field.lemma_cell(j);
    assert(field.marked_after(0, s));
    assert(field.passes_on(1, s, j));
    assert(field.marked_after((1 - 1) as nat, s));
    assert(field.marked_after(1, j));
    if field.adjacent(j, i) && field.skin@[i] > AT_065 && field.eye@[i] < AT_015 && field.mag@[i]
        < AT_0035 {
        assert(field.passes_on(2, j, i));
        assert(field.marked_after((2 - 1) as nat, j));
        assert(field.marked_after(2, i));
    }
}

/// Background is a seed on the border, or next to other background: then it is
/// either plain skin no deeper than three blocks, or nearly all skin within two
/// steps of a seed.
pub proof fn background_hangs_together(field: BlockField, i: int)
    requires
        field.is_background(i),
    ensures
        field.depth(i) == 0 || exists|j: int| field.is_background(j) && #[trigger] field.adjacent(j, i),
        (field.depth(i) == 0 && field.eye@[i] < AT_005) || (field.skin@[i] > AT_065 && field.mag@[i]
            < AT_0035) || (field.depth(i) <= 3 && field.eye@[i] < AT_005 && field.mag@[i] < AT_006),
        field.skin@[i] > AT_035,
        field.eye@[i] >= AT_005 ==> field.skin@[i] > AT_065 && field.mag@[i] < AT_0035 && field.eye@[i]
            < AT_015,
        field.eye@[i] >= AT_005 ==> exists|j: int| field.is_background(j) && #[trigger] field.adjacent(
            j,
            i,
        ) && (field.is_seed(j) || exists|s: int| field.is_seed(s) && #[trigger] field.adjacent(s, j)),
{
    let k = choose|k: nat| field.marked_after(k, i);
    lemma_plain(field, k, i);
    lemma_hangs_together(field, k, i);
}

proof fn lemma_hangs_together(field: BlockField, k: nat, i: int)
    requires
        field.marked_after(k, i),
    ensures
        field.depth(i) == 0 || exists|j: int| field.is_background(j) && #[trigger] field.adjacent(j, i),
        (field.depth(i) == 0 && field.eye@[i] < AT_005) || (field.skin@[i] > AT_065 && field.mag@[i]
            < AT_0035) || (field.depth(i) <= 3 && field.eye@[i] < AT_005 && field.mag@[i] < AT_006),
        field.eye@[i] >= AT_005 ==> field.skin@[i] > AT_065 && field.mag@[i] < AT_0035 && field.eye@[i]
            < AT_015,
        field.eye@[i] >= AT_005 ==> exists|j: int| field.is_background(j) && #[trigger] field.adjacent(
            j,
            i,
        ) && (field.is_seed(j) || exists|s: int| field.is_seed(s) && #[trigger] field.adjacent(s, j)),
    decreases k,
{
    if k > 0 {
        if field.marked_after((k - 1) as nat, i) {
            lemma_hangs_together(field, (k - 1) as nat, i);
        } else {
            let j = choose|j: int|
                field.marked_after((k - 1) as nat, j) && #[trigger] field.passes_on(k, j, i);
            assert(field.passes_on(k, j, i));
            assert(field.is_background(j));
            assert(field.adjacent(j, i));
            if k <= 2 && field.eye@[i] >= AT_005 {
                if k == 2 && !field.is_seed(j) {
                    assert(field.marked_after(1, j));
                    assert(!field.marked_after(0, j));
                    let s = choose|s: int|
                        field.marked_after((1 - 1) as nat, s) && #[trigger] field.passes_on(1, s, j);
                    assert(field.passes_on(1, s, j));
                    assert(field.is_seed(s) && field.adjacent(s, j));
                }
            }
        }
    }
}

/// A block looks like structure with gradients of 0.07 and an eye band of 0.05.
pub proof fn structure_has_gradients_and_eyes(field: BlockField, row: int, col: int)
    ensures
        field.active(row, col) <==> 0 <= col < field.cols && field.mag@[row * field.cols + col]
            >= AT_007 && field.eye@[row * field.cols + col] >= AT_005,
{
}

/// Blocks without eyes are counted one by one: each with less than 0.05 adds one.
pub proof fn quiet_blocks_are_counted(field: BlockField, row: int, from: int, end: int)
    requires
        from <= end,
    ensures
        field.quiet_count(row, from, from) == 0,
        field.eye@[row * field.cols + end] < AT_005 ==> field.quiet_count(row, from, end + 1)
            == field.quiet_count(row, from, end) + 1,
        field.eye@[row * field.cols + end] >= AT_005 ==> field.quiet_count(row, from, end + 1)
            == field.quiet_count(row, from, end),
        field.quiet_count(row, from, end) <= end - from,
    decreases end - from,
{
    if end > from {
        quiet_blocks_are_counted(field, row, from, end - 1);
    }
}

/// A row beside a run is quiet if it is outside the field, or if more than two
/// thirds of its blocks there are without eyes.
pub proof fn quiet_rows_lack_eyes(field: BlockField, row: int, from: int, to: int)
    requires
        from <= to,
    ensures
        row < 0 || row >= field.rows ==> field.quiet_beside(row, from, to),
        0 <= row < field.rows ==> (field.quiet_beside(row, from, to) <==> 3 * field.quiet_count(
            row,
            from,
            to + 1,
        ) > 2 * (to - from + 1)),
{
}

/// A run of five blocks or more that look like structure is geometric, all of it,
/// if the row above or below it is quiet, and no shorter run is; every geometric
/// block looks like structure.
pub proof fn long_lone_runs_are_geometric(field: BlockField, row: int, from: int, to: int, col: int)
    requires
        field.is_run(row, from, to),
        from <= col <= to,
    ensures
        to - from + 1 >= 5 && field.quiet_beside(row - 1, from, to) ==> field.is_geometric(row, col),
        to - from + 1 >= 5 && field.quiet_beside(row + 1, from, to) ==> field.is_geometric(row, col),
        to - from + 1 < 5 ==> !field.is_geometric(row, col),
        !field.quiet_beside(row - 1, from, to) && !field.quiet_beside(row + 1, from, to)
            ==> !field.is_geometric(row, col),
        field.active(row, col),
{
    field.lemma_one_run(row, from, to, col);
    assert(field.active(row, col));
}

/// A geometric block looks like structure.
pub proof fn geometric_blocks_look_like_structure(field: BlockField, row: int, col: int)
    requires
        field.is_geometric(row, col),
    ensures
        0 <= col < field.cols,
        field.mag@[row * field.cols + col] >= AT_007,
        field.eye@[row * field.cols + col] >= AT_005,
{
    let (a, b) = choose|a: int, b: int| #[trigger]
        field.is_run(row, a, b) && a <= col <= b && field.stands_alone(row, a, b);
    assert(field.active(row, col));
}

/// A run is as long as it can be: all of its blocks look like structure, and
/// neither the one before it nor the one behind it does.
pub proof fn runs_are_as_long_as_they_can_be(field: BlockField, row: int, from: int, to: int, c: int)
    ensures
        field.is_run(row, from, to) ==> 0 <= from <= to < field.cols && (from <= c <= to
            ==> field.active(row, c)) && !field.active(row, from - 1) && !field.active(row, to + 1),
        0 <= from <= to < field.cols && (forall|d: int| from <= d <= to ==> field.active(row, d))
            && !field.active(row, from - 1) && !field.active(row, to + 1) ==> field.is_run(
            row,
            from,
            to,
        ),
{
}

} // verus!
