//! The frame and the blocks that tile it.
//!
//! A frame is cut into square blocks, row by row; those at the right and
//! bottom edge may be smaller. Positions of block centres are kept doubled, so
//! that they stay whole.

use vstd::prelude::*;

verus! {

/// The number of horizontal strips in which a face is searched.
pub const STRIPS: u32 = 8;

/// A frame in pixels and the edge of its blocks.
#[derive(Clone, Copy)]
pub struct Frame {
    pub w: u32,
    pub h: u32,
    pub block: u32,
}

/// A rectangle of pixels.
#[derive(Clone, Copy, PartialEq, Eq, Structural, Debug)]
pub struct Block {
    pub x: u32,
    pub y: u32,
    pub w: u32,
    pub h: u32,
}

/// Two square windows, one on each side of an upright axis.
#[derive(Clone, Copy, PartialEq, Eq, Structural, Debug)]
pub struct Mirror {
    /// The left edge of the left window.
    pub left: u32,
    /// The left edge of the right window.
    pub right: u32,
    /// The top edge of both.
    pub top: u32,
}

/// The smaller of two numbers.
pub open spec fn least(a: int, b: int) -> int {
    if a <= b {
        a
    } else {
        b
    }
}

/// The quotient rounded up.
pub open spec fn ceil_div(a: int, b: int) -> int {
    (a + b - 1) / b
}

/// The edge of the blocks of a frame: an eighteenth of its short edge, but not
/// less than eight pixels.
pub open spec fn block_edge(w: int, h: int) -> int {
    if least(w, h) / 18 < 8 {
        8
    } else {
        least(w, h) / 18
    }
}

/// The edge of the blocks of a frame.
pub fn block_size(w: u32, h: u32) -> (r: u32)
    ensures
        r == block_edge(w as int, h as int),
{
    let short: u32 = if w <= h {
        w
    } else {
        h
    };
    if short / 18 < 8 {
        8
    } else {
        short / 18
    }
}

impl Block {
    /// Twice the column of the centre.
    pub open spec fn cx2(&self) -> int {
        2 * self.x + self.w
    }

    /// Twice the row of the centre.
    pub open spec fn cy2(&self) -> int {
        2 * self.y + self.h
    }

    /// Whether the block holds a pixel.
    pub open spec fn holds(&self, x: int, y: int) -> bool {
        self.x <= x < self.x + self.w && self.y <= y < self.y + self.h
    }

    /// Whether the block holds a pixel or the pixel borders it on the right
    /// or below: no further from the centre than half the block.
    pub open spec fn touches(&self, x: int, y: int) -> bool {
        self.x <= x <= self.x + self.w && self.y <= y <= self.y + self.h
    }

    /// Twice the column of the centre.
    pub fn centre_x2(&self) -> (r: u64)
        ensures
            r == self.cx2(),
    {
        2 * (self.x as u64) + self.w as u64
    }

    /// Twice the row of the centre.
    pub fn centre_y2(&self) -> (r: u64)
        ensures
            r == self.cy2(),
    {
        2 * (self.y as u64) + self.h as u64
    }

    /// Whether a pixel is no further from the centre than half the block.
    pub fn reaches(&self, x: u32, y: u32) -> (r: bool)
        ensures
            r == self.touches(x as int, y as int),
    {
        self.x <= x && x as u64 <= self.x as u64 + self.w as u64 && self.y <= y && y as u64
            <= self.y as u64 + self.h as u64
    }
}

impl Frame {
    /// The frame holds pixels and is cut into blocks.
    pub open spec fn well_formed(&self) -> bool {
        self.w > 0 && self.h > 0 && self.block > 0
    }

    /// The number of block columns.
    pub open spec fn n_cols(&self) -> int {
        ceil_div(self.w as int, self.block as int)
    }

    /// The number of block rows.
    pub open spec fn n_rows(&self) -> int {
        ceil_div(self.h as int, self.block as int)
    }

    /// Whether there is a block in this row and column.
    pub open spec fn has_block(&self, row: int, col: int) -> bool {
        0 <= row < self.n_rows() && 0 <= col < self.n_cols()
    }

    /// The block in a row and column.
    pub open spec fn block_in(&self, row: int, col: int) -> Block {
        let x = col * self.block;
        let y = row * self.block;
        Block {
            x: x as u32,
            y: y as u32,
            w: least(self.block as int, self.w - x) as u32,
            h: least(self.block as int, self.h - y) as u32,
        }
    }

    /// Whether a rectangle lies in the frame.
    pub open spec fn contains_block(&self, b: Block) -> bool {
        b.x + b.w <= self.w && b.y + b.h <= self.h
    }

    /// The frame with blocks of the usual size.
    pub fn new(w: u32, h: u32) -> (r: Frame)
        ensures
            r.w == w,
            r.h == h,
            r.block == block_edge(w as int, h as int),
            w > 0 && h > 0 ==> r.well_formed(),
    {
        Frame { w, h, block: block_size(w, h) }
    }

    /// The number of block columns.
    pub fn cols(&self) -> (r: u32)
        requires
            self.well_formed(),
        ensures
            r == self.n_cols(),
            0 < r <= self.w,
    {
        proof {
            lemma_ceil_div(self.w as int, self.block as int);
        }
        if self.w % self.block == 0 {
            self.w / self.block
        } else {
            self.w / self.block + 1
        }
    }

    /// The number of block rows.
    pub fn rows(&self) -> (r: u32)
        requires
            self.well_formed(),
        ensures
            r == self.n_rows(),
            0 < r <= self.h,
    {
        proof {
            lemma_ceil_div(self.h as int, self.block as int);
        }
        if self.h % self.block == 0 {
            self.h / self.block
        } else {
            self.h / self.block + 1
        }
    }

    /// The block in a row and column.
    pub fn block_at(&self, row: u32, col: u32) -> (r: Block)
        requires
            self.well_formed(),
            self.has_block(row as int, col as int),
        ensures
            r == self.block_in(row as int, col as int),
            r.w > 0,
            r.h > 0,
            self.contains_block(r),
            r.x == col * self.block,
            r.y == row * self.block,
    {
        proof {
            lemma_block_start(self.w as int, self.block as int, col as int);
            lemma_block_start(self.h as int, self.block as int, row as int);
        }
        let x: u32 = col * self.block;
        let y: u32 = row * self.block;
        let w: u32 = if self.block <= self.w - x {
            self.block
        } else {
            self.w - x
        };
        let h: u32 = if self.block <= self.h - y {
            self.block
        } else {
            self.h - y
        };
        Block { x, y, w, h }
    }

    /// The blocks of the frame, row by row.
    pub fn blocks(&self) -> (r: Vec<Block>)
        requires
            self.well_formed(),
        ensures
            r@.len() == self.n_rows() * self.n_cols(),
            forall|row: int, col: int|
                self.has_block(row, col) ==> #[trigger] r@[row * self.n_cols() + col]
                    == self.block_in(row, col),
    {
        let cols = self.cols();
        let rows = self.rows();
        let mut r: Vec<Block> = Vec::new();
        let mut row: u32 = 0;
        while row < rows
            invariant
                self.well_formed(),
                cols == self.n_cols(),
                rows == self.n_rows(),
                0 <= row <= rows,
                r@.len() == row * cols,
                forall|i: int, col: int|
                    0 <= i < row && 0 <= col < cols ==> #[trigger] r@[i * cols + col]
                        == self.block_in(i, col),
            decreases rows - row,
        {
            let mut col: u32 = 0;
            while col < cols
                invariant
                    self.well_formed(),
                    cols == self.n_cols(),
                    rows == self.n_rows(),
                    0 <= row < rows,
                    0 <= col <= cols,
                    r@.len() == row * cols + col,
                    forall|i: int, c: int|
                        (0 <= i < row && 0 <= c < cols) || (i == row && 0 <= c < col)
                            ==> #[trigger] r@[i * cols + c] == self.block_in(i, c),
                decreases cols - col,
            {
                let b = self.block_at(row, col);
                r.push(b);
                proof {
                    assert forall|i: int, c: int|
                        (0 <= i < row && 0 <= c < cols) || (i == row && 0 <= c < col
                            + 1) implies #[trigger] r@[i * cols + c] == self.block_in(i, c) by {
                        if i < row {
                            assert(0 <= i * cols + c < row * cols) by (nonlinear_arith)
                                requires
                                    0 <= i < row,
                                    0 <= c < cols,
                            ;
                        } else {
                            assert(0 <= row * cols) by (nonlinear_arith)
                                requires
                                    0 <= row,
                                    0 <= cols,
                            ;
                        }
                    }
                }
                col = col + 1;
            }
            proof {
                assert(row * cols + cols == (row + 1) * cols) by (nonlinear_arith);
            }
            row = row + 1;
        }
        r
    }

    /// The positions of a rectangle's pixels in a map of the frame, row by
    /// row.
    pub fn pixels(&self, b: &Block) -> (r: Vec<usize>)
        requires
            self.contains_block(*b),
            self.w * self.h <= usize::MAX,
        ensures
            r@.len() == b.h * b.w,
            forall|dy: int, dx: int|
                0 <= dy < b.h && 0 <= dx < b.w ==> #[trigger] r@[dy * b.w + dx] == (b.y + dy)
                    * self.w + (b.x + dx),
            forall|k: int| 0 <= k < r@.len() ==> #[trigger] r@[k] < self.w * self.h,
    {
        let mut r: Vec<usize> = Vec::new();
        let mut dy: u32 = 0;
        while dy < b.h
            invariant
                self.contains_block(*b),
                self.w * self.h <= usize::MAX,
                0 <= dy <= b.h,
                r@.len() == dy * b.w,
                forall|i: int, dx: int|
                    0 <= i < dy && 0 <= dx < b.w ==> #[trigger] r@[i * b.w + dx] == (b.y + i)
                        * self.w + (b.x + dx),
                forall|k: int| 0 <= k < r@.len() ==> #[trigger] r@[k] < self.w * self.h,
            decreases b.h - dy,
        {
            let mut dx: u32 = 0;
            while dx < b.w
                invariant
                    self.contains_block(*b),
                    self.w * self.h <= usize::MAX,
                    0 <= dy < b.h,
                    0 <= dx <= b.w,
                    r@.len() == dy * b.w + dx,
                    forall|i: int, j: int|
                        (0 <= i < dy && 0 <= j < b.w) || (i == dy && 0 <= j < dx)
                            ==> #[trigger] r@[i * b.w + j] == (b.y + i) * self.w + (b.x + j),
                    forall|k: int| 0 <= k < r@.len() ==> #[trigger] r@[k] < self.w * self.h,
                decreases b.w - dx,
            {
                let y: u32 = b.y + dy;
                let x: u32 = b.x + dx;
                proof {
                    assert(0 <= y * self.w <= y * self.w + x < self.w * self.h) by (nonlinear_arith)
                        requires
                            0 <= x < self.w,
                            0 <= y < self.h,
                    ;
                }
                r.push(y as usize * self.w as usize + x as usize);
                proof {
                    assert forall|i: int, j: int|
                        (0 <= i < dy && 0 <= j < b.w) || (i == dy && 0 <= j < dx
                            + 1) implies #[trigger] r@[i * b.w + j] == (b.y + i) * self.w + (b.x
                        + j) by {
                        if i < dy {
                            assert(0 <= i * b.w + j < dy * b.w) by (nonlinear_arith)
                                requires
                                    0 <= i < dy,
                                    0 <= j < b.w,
                            ;
                        } else {
                            assert(0 <= dy * b.w) by (nonlinear_arith)
                                requires
                                    0 <= dy,
                                    0 <= b.w,
                            ;
                        }
                    }
                }
                dx = dx + 1;
            }
            proof {
                assert(dy * b.w + b.w == (dy + 1) * b.w) by (nonlinear_arith);
            }
            dy = dy + 1;
        }
        r
    }

    /// Whether a block centred at the doubled column lies in the outermost 11%
    /// of the frame's width.
    pub open spec fn outermost(&self, cx2: int) -> bool {
        50 * cx2 < 11 * self.w || 50 * cx2 > 89 * self.w
    }

    /// The strip that a block centred at the doubled row belongs to.
    pub open spec fn strip(&self, cy2: int) -> int {
        least(4 * cy2 / self.h as int, STRIPS - 1)
    }

    /// Whether the frame is clearly taller than wide: narrower than 4:5.
    pub open spec fn tall(&self) -> bool {
        5 * self.w < 4 * self.h
    }

    /// Whether the frame is clearly wider than tall: wider than 8:5.
    pub open spec fn wide(&self) -> bool {
        5 * self.w > 8 * self.h
    }

    /// Whether the block lies in the outermost 11% of the frame's width.
    pub fn in_edge_column(&self, b: &Block) -> (r: bool)
        ensures
            r == self.outermost(b.cx2()),
    {
        let cx2 = b.centre_x2();
        50 * cx2 < 11 * (self.w as u64) || 50 * cx2 > 89 * (self.w as u64)
    }

    /// The strip that the block belongs to.
    pub fn strip_of(&self, b: &Block) -> (r: usize)
        requires
            self.h > 0,
        ensures
            r == self.strip(b.cy2()),
            r < STRIPS,
    {
        let s: u64 = 4 * b.centre_y2() / self.h as u64;
        if s <= 7 {
            s as usize
        } else {
            7
        }
    }

    /// Whether the frame is narrower than 4:5.
    pub fn is_tall(&self) -> (r: bool)
        ensures
            r == self.tall(),
    {
        5 * (self.w as u64) < 4 * (self.h as u64)
    }

    /// Whether the frame is wider than 8:5.
    pub fn is_wide(&self) -> (r: bool)
        ensures
            r == self.wide(),
    {
        5 * (self.w as u64) > 8 * (self.h as u64)
    }

    /// How far from the axis windows are laid: up to four blocks, and not past
    /// the frame on either side.
    pub open spec fn mirror_reach(&self, axis: int) -> int {
        least(least(axis, self.w - axis), 4 * self.block)
    }

    /// The height of the band in which windows are laid.
    pub open spec fn mirror_band(&self) -> int {
        least(self.h as int, 4 * self.block)
    }

    /// The top of that band.
    pub open spec fn mirror_top(&self) -> int {
        self.h as int / 2 - least(self.mirror_band() / 2, self.h as int / 2)
    }

    /// The bottom of that band: windows start above it and end in the frame.
    pub open spec fn mirror_bottom(&self) -> int {
        least(
            self.mirror_top() + self.mirror_band(),
            if self.h < self.block {
                0
            } else {
                self.h - self.block
            },
        )
    }

    /// The number of windows side by side.
    pub open spec fn mirror_columns(&self, axis: int) -> int {
        self.mirror_reach(axis) / self.block as int
    }

    /// The number of windows one above the other.
    pub open spec fn mirror_rows(&self) -> int {
        if self.mirror_bottom() <= self.mirror_top() {
            0
        } else {
            ceil_div(self.mirror_bottom() - self.mirror_top(), self.block as int)
        }
    }

    /// The windows in column `k` away from the axis and row `m` of the band.
    pub open spec fn mirror_in(&self, axis: int, k: int, m: int) -> Mirror {
        Mirror {
            left: (axis - (k + 1) * self.block) as u32,
            right: (axis + k * self.block) as u32,
            top: (self.mirror_top() + m * self.block) as u32,
        }
    }

    /// The windows to compare around an upright axis through the middle band
    /// of the frame: those next to the axis first, each column from the top.
    pub fn mirrors(&self, axis: u32) -> (r: Vec<Mirror>)
        requires
            self.well_formed(),
            axis <= self.w,
        ensures
            r@.len() == self.mirror_columns(axis as int) * self.mirror_rows(),
            forall|k: int, m: int|
                0 <= k < self.mirror_columns(axis as int) && 0 <= m < self.mirror_rows()
                    ==> #[trigger] r@[k * self.mirror_rows() + m] == self.mirror_in(
                    axis as int,
                    k,
                    m,
                ),
    {
        let block = self.block;
        let side: u32 = if axis <= self.w - axis {
            axis
        } else {
            self.w - axis
        };
        let reach: u32 = if side as u64 <= 4 * (block as u64) {
            side
        } else {
            4 * block
        };
        let band: u32 = if self.h as u64 <= 4 * (block as u64) {
            self.h
        } else {
            4 * block
        };
        let rise: u32 = if band / 2 <= self.h / 2 {
            band / 2
        } else {
            self.h / 2
        };
        let top: u32 = self.h / 2 - rise;
        let limit: u32 = if self.h < block {
            0
        } else {
            self.h - block
        };
        let bottom: u32 = if top as u64 + band as u64 <= limit as u64 {
            top + band
        } else {
            limit
        };
        let cols: u32 = reach / block;
        let rows: u32 = if bottom <= top {
            0
        } else {
            proof {
                lemma_ceil_div(bottom - top, block as int);
            }
            let tall: u32 = bottom - top;
            if tall % block == 0 {
                tall / block
            } else {
                tall / block + 1
            }
        };
        assert(rows == self.mirror_rows());
        let mut r: Vec<Mirror> = Vec::new();
        let mut k: u32 = 0;
        while k < cols
            invariant
                self.well_formed(),
                block == self.block,
                axis <= self.w,
                reach == self.mirror_reach(axis as int),
                cols == self.mirror_columns(axis as int),
                rows == self.mirror_rows(),
                top == self.mirror_top(),
                bottom == self.mirror_bottom(),
                bottom <= self.h,
                0 <= k <= cols,
                r@.len() == k * rows,
                forall|i: int, m: int|
                    0 <= i < k && 0 <= m < rows ==> #[trigger] r@[i * rows + m] == self.mirror_in(
                        axis as int,
                        i,
                        m,
                    ),
            decreases cols - k,
        {
            proof {
                lemma_steps_fit(reach as int, block as int, k as int);
            }
            let out: u32 = k * block;
            let mut m: u32 = 0;
            while m < rows
                invariant
                    self.well_formed(),
                    block == self.block,
                    axis <= self.w,
                    reach == self.mirror_reach(axis as int),
                    cols == self.mirror_columns(axis as int),
                    rows == self.mirror_rows(),
                    top == self.mirror_top(),
                    bottom == self.mirror_bottom(),
                    bottom <= self.h,
                    0 <= k < cols,
                    out == k * block,
                    out + block <= reach,
                    (k + 1) * block == out + block,
                    0 <= m <= rows,
                    r@.len() == k * rows + m,
                    forall|i: int, j: int|
                        (0 <= i < k && 0 <= j < rows) || (i == k && 0 <= j < m)
                            ==> #[trigger] r@[i * rows + j] == self.mirror_in(axis as int, i, j),
                decreases rows - m,
            {
                proof {
                    lemma_block_start(bottom - top, block as int, m as int);
                }
                let down: u32 = m * block;
                r.push(Mirror { left: axis - out - block, right: axis + out, top: top + down });
                proof {
                    assert forall|i: int, j: int|
                        (0 <= i < k && 0 <= j < rows) || (i == k && 0 <= j < m
                            + 1) implies #[trigger] r@[i * rows + j] == self.mirror_in(
                        axis as int,
                        i,
                        j,
                    ) by {
                        if i < k {
                            assert(0 <= i * rows + j < k * rows) by (nonlinear_arith)
                                requires
                                    0 <= i < k,
                                    0 <= j < rows,
                            ;
                        } else {
                            assert(0 <= k * rows) by (nonlinear_arith)
                                requires
                                    0 <= k,
                                    0 <= rows,
                            ;
                        }
                    }
                }
                m = m + 1;
            }
            proof {
                assert(k * rows + rows == (k + 1) * rows) by (nonlinear_arith);
            }
            k = k + 1;
        }
        r
    }
}

/// The number of rows in the upper 45% of a block.
pub fn upper_rows(h: u32) -> (r: u32)
    ensures
        r == 9 * h / 20,
        r <= h,
{
    (9 * (h as u64) / 20) as u32
}

proof fn lemma_ceil_div(a: int, b: int)
    requires
        0 < a,
        0 < b,
    ensures
        ceil_div(a, b) == if a % b == 0 {
            a / b
        } else {
            a / b + 1
        },
        0 < ceil_div(a, b) <= a,
{
    vstd::arithmetic::div_mod::lemma_fundamental_div_mod(a, b);
    let q = a / b;
    let m = a % b;
    assert(0 <= m < b) by {
        vstd::arithmetic::div_mod::lemma_mod_bound(a, b);
    }
    assert(a == q * b + m) by (nonlinear_arith)
        requires
            a == b * q + m,
    ;
    if m == 0 {
        assert(a + b - 1 == q * b + (b - 1));
        vstd::arithmetic::div_mod::lemma_fundamental_div_mod_converse(a + b - 1, b, q, b - 1);
    } else {
        assert(a + b - 1 == (q + 1) * b + (m - 1)) by (nonlinear_arith)
            requires
                a == q * b + m,
        ;
        vstd::arithmetic::div_mod::lemma_fundamental_div_mod_converse(a + b - 1, b, q + 1, m - 1);
    }
    assert(0 <= q <= a) by (nonlinear_arith)
        requires
            a == q * b + m,
            0 <= m < b,
            0 < a,
    ;
    if m != 0 {
        assert(q + 1 <= a) by (nonlinear_arith)
            requires
                a == q * b + m,
                0 < m < b,
                0 <= q,
        ;
    } else {
        assert(0 < q) by (nonlinear_arith)
            requires
                a == q * b,
                0 < a,
                0 < b,
        ;
    }
}

/// The block number `k` along an edge starts on that edge.
proof fn lemma_block_start(length: int, block: int, k: int)
    requires
        0 < length,
        0 < block,
        0 <= k < ceil_div(length, block),
    ensures
        0 <= k * block < length,
{
    lemma_ceil_div(length, block);
    vstd::arithmetic::div_mod::lemma_fundamental_div_mod(length, block);
    vstd::arithmetic::div_mod::lemma_mod_bound(length, block);
    let q = length / block;
    let m = length % block;
    if m == 0 {
        assert(k * block < length) by (nonlinear_arith)
            requires
                length == block * q + m,
                m == 0,
                k < q,
                0 < block,
        ;
    } else {
        assert(k * block < length) by (nonlinear_arith)
            requires
                length == block * q + m,
                m > 0,
                k <= q,
                0 < block,
        ;
    }
    assert(0 <= k * block) by (nonlinear_arith)
        requires
            0 <= k,
            0 < block,
    ;
}

/// Step number `k` of those that fit into a length ends within it.
proof fn lemma_steps_fit(length: int, block: int, k: int)
    requires
        0 <= length,
        0 < block,
        0 <= k < length / block,
    ensures
        0 <= k * block,
        k * block + block <= length,
        (k + 1) * block == k * block + block,
{
    vstd::arithmetic::div_mod::lemma_fundamental_div_mod(length, block);
    vstd::arithmetic::div_mod::lemma_mod_bound(length, block);
    assert((k + 1) * block == k * block + block) by (nonlinear_arith);
    assert((k + 1) * block <= length) by (nonlinear_arith)
        requires
            length == block * (length / block) + length % block,
            k + 1 <= length / block,
            0 < block,
            0 <= length % block,
    ;
    assert(0 <= k * block) by (nonlinear_arith)
        requires
            0 <= k,
            0 < block,
    ;
}

/// The blocks tile the frame: each pixel lies in one block and in no other.
pub proof fn blocks_tile_the_frame(f: Frame, x: int, y: int, row: int, col: int)
    requires
        f.well_formed(),
        0 <= x < f.w,
        0 <= y < f.h,
    ensures
        f.has_block(y / f.block as int, x / f.block as int),
        f.has_block(row, col) ==> (f.block_in(row, col).holds(x, y) <==> row == y / f.block as int
            && col == x / f.block as int),
{
    lemma_tile_along(f.w as int, f.block as int, x, x / f.block as int);
    lemma_tile_along(f.h as int, f.block as int, y, y / f.block as int);
    if f.has_block(row, col) {
        lemma_block_start(f.w as int, f.block as int, col);
        lemma_block_start(f.h as int, f.block as int, row);
        lemma_tile_along(f.w as int, f.block as int, x, col);
        lemma_tile_along(f.h as int, f.block as int, y, row);
    }
}

proof fn lemma_tile_along(length: int, block: int, x: int, k: int)
    requires
        0 <= x < length,
        0 < block,
    ensures
        0 <= x / block < ceil_div(length, block),
        k * block <= x < k * block + least(block, length - k * block) <==> k == x / block,
{
    lemma_ceil_div(length, block);
    vstd::arithmetic::div_mod::lemma_fundamental_div_mod(length, block);
    vstd::arithmetic::div_mod::lemma_mod_bound(length, block);
    vstd::arithmetic::div_mod::lemma_fundamental_div_mod(x, block);
    vstd::arithmetic::div_mod::lemma_mod_bound(x, block);
    let q = x / block;
    assert(x == q * block + x % block) by (nonlinear_arith)
        requires
            x == block * q + x % block,
    ;
    assert(0 <= q) by (nonlinear_arith)
        requires
            x == q * block + x % block,
            0 <= x,
            x % block < block,
            0 < block,
    ;
    let n = length / block;
    assert(q <= n) by (nonlinear_arith)
        requires
            length == block * n + length % block,
            length % block < block,
            x == q * block + x % block,
            0 <= x % block,
            x < length,
            0 < block,
    ;
    if length % block == 0 {
        assert(q < n) by (nonlinear_arith)
            requires
                length == block * n,
                x == q * block + x % block,
                0 <= x % block,
                x < length,
                0 < block,
        ;
    }
    if k < q {
        assert(k * block + block <= q * block) by (nonlinear_arith)
            requires
                k < q,
                0 < block,
        ;
    } else if k > q {
        assert(q * block + block <= k * block) by (nonlinear_arith)
            requires
                q < k,
                0 < block,
        ;
    }
}

/// Blocks have eight pixels to an edge at least; from a short edge of 144 on the
/// frame has eighteen along it, and not nineteen.
pub proof fn frames_have_eighteen_blocks(w: int, h: int)
    requires
        0 <= w,
        0 <= h,
    ensures
        block_edge(w, h) >= 8,
        w < 144 || h < 144 ==> block_edge(w, h) == 8,
        w >= 144 && h >= 144 ==> 18 * block_edge(w, h) <= w && 18 * block_edge(w, h) <= h,
        w >= 144 && h >= 144 ==> w < 18 * (block_edge(w, h) + 1) || h < 18 * (block_edge(w, h) + 1),
        block_edge(w, h) == block_edge(h, w),
{
}

/// There are as many columns and rows of blocks as it takes to cover the frame, and
/// no more.
pub proof fn blocks_just_cover_the_frame(f: Frame)
    requires
        f.well_formed(),
    ensures
        f.n_cols() * f.block >= f.w,
        (f.n_cols() - 1) * f.block < f.w,
        f.n_rows() * f.block >= f.h,
        (f.n_rows() - 1) * f.block < f.h,
{
    lemma_just_covers(f.w as int, f.block as int);
    lemma_just_covers(f.h as int, f.block as int);
}

proof fn lemma_just_covers(length: int, block: int)
    requires
        0 < length,
        0 < block,
    ensures
        ceil_div(length, block) * block >= length,
        (ceil_div(length, block) - 1) * block < length,
{
    let n = ceil_div(length, block);
    lemma_ceil_div(length, block);
    lemma_block_start(length, block, n - 1);
    vstd::arithmetic::div_mod::lemma_fundamental_div_mod(length, block);
    vstd::arithmetic::div_mod::lemma_mod_bound(length, block);
    let q = length / block;
    let m = length % block;
    assert(n * block >= length) by (nonlinear_arith)
        requires
            length == block * q + m,
            0 <= m < block,
            n == if m == 0 {
                q
            } else {
                q + 1
            },
    ;
}

/// A block starts a whole number of blocks from the upper left corner, and has the
/// full size unless the frame ends.
pub proof fn blocks_are_cut_at_the_edges(f: Frame, row: int, col: int)
    requires
        f.well_formed(),
        f.has_block(row, col),
    ensures
        ({
            let b = f.block_in(row, col);
            &&& b.x == col * f.block
            &&& b.y == row * f.block
            &&& b.x + f.block <= f.w ==> b.w == f.block
            &&& b.x + f.block >= f.w ==> b.x + b.w == f.w
            &&& b.y + f.block <= f.h ==> b.h == f.block
            &&& b.y + f.block >= f.h ==> b.y + b.h == f.h
            &&& b.w > 0 && b.h > 0
        }),
{
    lemma_block_start(f.w as int, f.block as int, col);
    lemma_block_start(f.h as int, f.block as int, row);
}

/// The centre of a block is half its edges from its corner; a block holds its
/// pixels, and reaches one more to the right and below.
pub proof fn centres_lie_half_way(b: Block, x: int, y: int)
    ensures
        b.cx2() == b.x + (b.x + b.w),
        b.cy2() == b.y + (b.y + b.h),
        b.touches(x, y) <==> b.x <= x && x <= b.x + b.w && b.y <= y && y <= b.y + b.h,
        b.holds(x, y) <==> b.x <= x && x < b.x + b.w && b.y <= y && y < b.y + b.h,
        b.holds(x, y) ==> b.touches(x, y),
{
}

/// A block lies in the outermost 11% of the width if its centre does, on the left
/// or on the right: one that is mirrored in the frame does if the block does.
pub proof fn edge_columns_are_mirrored(f: Frame, cx2: int)
    requires
        0 <= cx2 <= 2 * f.w,
    ensures
        f.outermost(cx2) <==> f.outermost(2 * f.w - cx2),
        f.outermost(cx2) <==> 100 * cx2 < 11 * (2 * f.w) || 100 * cx2 > 89 * (2 * f.w),
{
}

/// The strips cut the height in eight: a block belongs to the strip that its
/// centre lies in, and to the last one at the bottom edge.
pub proof fn strips_cut_the_height_in_eight(f: Frame, cy2: int)
    requires
        f.h > 0,
        0 <= cy2 <= 2 * f.h,
    ensures
        0 <= f.strip(cy2) < 8,
        f.strip(cy2) * f.h <= 4 * cy2,
        f.strip(cy2) < 7 ==> 4 * cy2 < (f.strip(cy2) + 1) * f.h,
{
    let h = f.h as int;
    let q = 4 * cy2 / h;
    vstd::arithmetic::div_mod::lemma_fundamental_div_mod(4 * cy2, h);
    vstd::arithmetic::div_mod::lemma_mod_bound(4 * cy2, h);
    assert(0 <= q) by (nonlinear_arith)
        requires
            4 * cy2 == h * q + (4 * cy2) % h,
            (4 * cy2) % h < h,
            0 <= cy2,
            0 < h,
    ;
    assert(q * h <= 4 * cy2 && 4 * cy2 < (q + 1) * h) by (nonlinear_arith)
        requires
            4 * cy2 == h * q + (4 * cy2) % h,
            0 <= (4 * cy2) % h < h,
    ;
    if q > 7 {
        assert(7 * h <= q * h) by (nonlinear_arith)
            requires
                q > 7,
                h > 0,
        ;
    }
}

/// A frame is tall below 4:5 and wide above 8:5; at these shapes and between them
/// it is neither, and none is both.
pub proof fn frames_are_tall_or_wide(f: Frame)
    ensures
        f.tall() <==> 5 * f.w < 4 * f.h,
        f.wide() <==> 5 * f.w > 8 * f.h,
        !(f.tall() && f.wide()),
        f.w == f.h ==> !f.tall() && (f.w > 0 ==> !f.wide()),
{
}

/// The windows around an axis mirror each other: the left one ends as far before
/// the axis as the right one starts behind it, both lie in the frame, no farther
/// than four blocks from the axis, and in the middle band of four blocks.
pub proof fn windows_mirror_each_other(f: Frame, axis: int, k: int, m: int)
    requires
        f.well_formed(),
        0 <= axis <= f.w,
        0 <= k < f.mirror_columns(axis),
        0 <= m < f.mirror_rows(),
    ensures
        ({
            let p = f.mirror_in(axis, k, m);
            &&& axis - (p.left + f.block) == p.right - axis
            &&& p.right - axis == k * f.block
            &&& 0 <= p.left && p.right + f.block <= f.w
            &&& axis - p.left <= 4 * f.block
            &&& p.top + f.block <= f.h
            &&& p.top == f.mirror_top() + m * f.block
            &&& p.top < f.mirror_top() + 4 * f.block
        }),
{
    let block = f.block as int;
    lemma_steps_fit(f.mirror_reach(axis), block, k);
    lemma_block_start(f.mirror_bottom() - f.mirror_top(), block, m);
}

/// The middle band is four blocks high where the frame is, and centred.
pub proof fn the_middle_band_is_centred(f: Frame)
    requires
        f.well_formed(),
    ensures
        4 * f.block <= f.h ==> f.mirror_band() == 4 * f.block && f.mirror_top() == f.h as int / 2 - 2
            * f.block,
        4 * f.block >= f.h ==> f.mirror_band() == f.h && f.mirror_top() == 0,
        f.mirror_bottom() <= f.mirror_top() + f.mirror_band(),
        f.h >= f.block ==> f.mirror_bottom() + f.block <= f.h || f.mirror_bottom() == f.h - f.block,
        f.h >= f.block && f.mirror_top() + f.mirror_band() + f.block <= f.h ==> f.mirror_bottom()
            == f.mirror_top() + f.mirror_band(),
        f.h >= f.block && f.mirror_top() + f.mirror_band() + f.block >= f.h ==> f.mirror_bottom()
            == f.h - f.block,
        f.h < f.block ==> f.mirror_bottom() == 0 && f.mirror_rows() == 0,
{
}

/// Windows are laid side by side as long as they fit between the axis and the
/// nearer side of the frame, four at most.
pub proof fn up_to_four_windows_fit_beside_the_axis(f: Frame, axis: int)
    requires
        f.well_formed(),
        0 <= axis <= f.w,
    ensures
        f.mirror_columns(axis) == f.mirror_columns(f.w - axis),
        f.mirror_columns(axis) * f.block <= axis,
        f.mirror_columns(axis) * f.block <= f.w - axis,
        f.mirror_columns(axis) <= 4,
        f.mirror_columns(axis) < 4 ==> (f.mirror_columns(axis) + 1) * f.block > axis || (
        f.mirror_columns(axis) + 1) * f.block > f.w - axis,
{
    let block = f.block as int;
    let reach = f.mirror_reach(axis);
    vstd::arithmetic::div_mod::lemma_fundamental_div_mod(reach, block);
    vstd::arithmetic::div_mod::lemma_mod_bound(reach, block);
    let n = reach / block;
    assert(n * block <= reach && reach < (n + 1) * block) by (nonlinear_arith)
        requires
            reach == block * n + reach % block,
            0 <= reach % block < block,
    ;
    assert(n <= 4) by (nonlinear_arith)
        requires
            n * block <= 4 * block,
            block > 0,
    ;
    if n < 4 && reach == 4 * block {
        assert((n + 1) * block <= 4 * block) by (nonlinear_arith)
            requires
                n < 4,
                block > 0,
        ;
    }
}

/// The upper part of a block is 45% of its rows, rounded down.
pub proof fn the_upper_part_is_less_than_half(h: u32, r: u32)
    requires
        call_ensures(upper_rows, (h,), r),
    ensures
        100 * r <= 45 * h,
        45 * h < 100 * (r + 1),
{
}

/// The pixels of a block are read from its upper left corner, along its rows and
/// then down: one pixel to the right is one place on, and one row down is one width
/// of the frame on.
pub proof fn pixels_are_read_row_by_row(f: Frame, b: Block, r: Vec<usize>, dx: int, dy: int)
    requires
        call_ensures(Frame::pixels, (&f, &b), r),
        0 <= dx < b.w,
        0 <= dy < b.h,
    ensures
        r@.len() == b.w * b.h,
        r@[0] == b.y * f.w + b.x,
        dx + 1 < b.w ==> r@[dy * b.w + dx + 1] == r@[dy * b.w + dx] + 1,
        dy + 1 < b.h ==> r@[(dy + 1) * b.w + dx] == r@[dy * b.w + dx] + f.w,
{
    assert(b.h * b.w == b.w * b.h) by (nonlinear_arith);
    assert(r@[0int * b.w + 0int] == (b.y + 0int) * f.w + (b.x + 0int));
    assert(r@[dy * b.w + dx] == (b.y + dy) * f.w + (b.x + dx));
    if dx + 1 < b.w {
        assert(r@[dy * b.w + (dx + 1)] == (b.y + dy) * f.w + (b.x + (dx + 1)));
    }
    if dy + 1 < b.h {
        assert(r@[(dy + 1) * b.w + dx] == (b.y + (dy + 1)) * f.w + (b.x + dx));
        assert((b.y + (dy + 1)) * f.w == (b.y + dy) * f.w + f.w) by (nonlinear_arith);
    }
}

} // verus!
