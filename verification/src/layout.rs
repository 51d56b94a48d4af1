//! The block layout of an image: how a pixel matrix is cut into square blocks
//! and in which order blocks and their pixels are visited.
use vstd::prelude::*;
use vstd::arithmetic::div_mod::{lemma_fundamental_div_mod_converse, lemma_div_is_ordered};

verus! {

/// The number of intervals of length `b` needed to cover `n` positions.
pub open spec fn ceil_div(n: nat, b: nat) -> nat {
    if n == 0 {
        0
    } else {
        ((n - 1) / (b as int) + 1) as nat
    }
}

/// The length of the `q`-th interval of length `b` once clipped to `n` positions.
pub open spec fn span(n: nat, b: nat, q: int) -> int {
    if n - q * b < b {
        n - q * b
    } else {
        b as int
    }
}

/// Every position falls into one of the `ceil_div(n, b)` intervals, inside
/// that interval's clipped span.
pub proof fn lemma_interval_of(n: nat, b: nat, x: int)
    requires
        b >= 1,
        0 <= x < n,
    ensures
        0 <= x / (b as int) < ceil_div(n, b),
        (x / (b as int)) * b <= x < (x / (b as int)) * b + span(n, b, x / (b as int)),
{
    let d = b as int;
    lemma_div_is_ordered(x, n - 1, d);
    lemma_div_is_ordered(0, x, d);
    vstd::arithmetic::div_mod::lemma_fundamental_div_mod(x, d);
    assert((x / d) * d == d * (x / d)) by (nonlinear_arith);
}

/// Every interval is non-empty and lies inside `0..n`, and each of its
/// positions belongs to it alone.
pub proof fn lemma_interval_span(n: nat, b: nat, q: int)
    requires
        b >= 1,
        0 <= q < ceil_div(n, b),
    ensures
        0 <= q * b < n,
        1 <= span(n, b, q) <= b,
        q * b + span(n, b, q) <= n,
        forall|x: int| q * b <= x < q * b + span(n, b, q) ==> #[trigger] (x / (b as int)) == q,
{
    let d = b as int;
    let m = (n - 1) / d;
    vstd::arithmetic::div_mod::lemma_fundamental_div_mod(n - 1, d);
    assert(q * d <= m * d) by (nonlinear_arith)
        requires
            q <= m,
            d >= 1,
    ;
    assert(m * d == d * m) by (nonlinear_arith);
    assert(0 <= q * d) by (nonlinear_arith)
        requires
            0 <= q,
            d >= 1,
    ;
    assert forall|x: int| q * b <= x < q * b + span(n, b, q) implies #[trigger] (x / d) == q by {
        lemma_fundamental_div_mod_converse(x, d, q, x - q * d);
    }
}

/// How an image of `width` by `height` pixels is cut into square blocks of
/// side `block`. Blocks at the right and bottom edge are clipped to the image.
/// Blocks are numbered row by row; inside a block, pixels are numbered row
/// by row as well.
pub struct Layout {
    pub block: nat,
    pub width: nat,
    pub height: nat,
}

impl Layout {
    pub open spec fn wf(self) -> bool {
        self.block >= 1
    }

    /// Blocks per row.
    pub open spec fn blocks_x(self) -> nat {
        ceil_div(self.width, self.block)
    }

    /// Rows of blocks.
    pub open spec fn blocks_y(self) -> nat {
        ceil_div(self.height, self.block)
    }

    pub open spec fn block_count(self) -> nat {
        self.blocks_x() * self.blocks_y()
    }

    pub open spec fn in_image(self, x: int, y: int) -> bool {
        0 <= x < self.width && 0 <= y < self.height
    }

    /// The number of the block in column `bx` of block row `by`.
    pub open spec fn block_at(self, bx: int, by: int) -> int {
        by * self.blocks_x() + bx
    }

    /// The number of the block that holds pixel `(x, y)`.
    pub open spec fn block_of(self, x: int, y: int) -> int {
        self.block_at(x / (self.block as int), y / (self.block as int))
    }

    pub open spec fn col_of(self, bi: int) -> int {
        bi % (self.blocks_x() as int)
    }

    pub open spec fn row_of(self, bi: int) -> int {
        bi / (self.blocks_x() as int)
    }

    /// Leftmost pixel column of block `bi`.
    pub open spec fn x0(self, bi: int) -> int {
        self.col_of(bi) * self.block
    }

    /// Topmost pixel row of block `bi`.
    pub open spec fn y0(self, bi: int) -> int {
        self.row_of(bi) * self.block
    }

    /// Width of block `bi` after clipping.
    pub open spec fn block_w(self, bi: int) -> int {
        span(self.width, self.block, self.col_of(bi))
    }

    /// Height of block `bi` after clipping.
    pub open spec fn block_h(self, bi: int) -> int {
        span(self.height, self.block, self.row_of(bi))
    }

    /// Number of pixels in block `bi`.
    pub open spec fn area(self, bi: int) -> int {
        self.block_w(bi) * self.block_h(bi)
    }

    /// Whether pixel `(x, y)` lies in block `bi`.
    pub open spec fn in_block(self, bi: int, x: int, y: int) -> bool {
        &&& self.x0(bi) <= x < self.x0(bi) + self.block_w(bi)
        &&& self.y0(bi) <= y < self.y0(bi) + self.block_h(bi)
    }

    /// The rank of pixel `(x, y)` among the pixels of its block `bi`.
    pub open spec fn rank_in(self, bi: int, x: int, y: int) -> int {
        (y - self.y0(bi)) * self.block_w(bi) + (x - self.x0(bi))
    }

    /// The column of the pixel with rank `t` in block `bi`.
    pub open spec fn x_at(self, bi: int, t: int) -> int {
        self.x0(bi) + t % self.block_w(bi)
    }

    /// The row of the pixel with rank `t` in block `bi`.
    pub open spec fn y_at(self, bi: int, t: int) -> int {
        self.y0(bi) + t / self.block_w(bi)
    }

    /// Column and row of a block are recovered from its number.
    pub proof fn lemma_block_at(self, bx: int, by: int)
        requires
            0 <= bx < self.blocks_x(),
            0 <= by < self.blocks_y(),
        ensures
            0 <= self.block_at(bx, by) < self.block_count(),
            self.col_of(self.block_at(bx, by)) == bx,
            self.row_of(self.block_at(bx, by)) == by,
    {
        let wx = self.blocks_x() as int;
        let hy = self.blocks_y() as int;
        crate::raster::lemma_row_major_index(wx, hy, bx, by);
    }

    /// A block number names a column and a row of blocks.
    pub proof fn lemma_block_number(self, bi: int)
        requires
            0 <= bi < self.block_count(),
        ensures
            0 <= self.col_of(bi) < self.blocks_x(),
            0 <= self.row_of(bi) < self.blocks_y(),
            self.block_at(self.col_of(bi), self.row_of(bi)) == bi,
    {
        crate::raster::lemma_index_position(
            self.blocks_x() as int,
            self.blocks_y() as int,
            bi,
        );
    }

    /// A block is non-empty and lies inside the image.
    pub proof fn lemma_block_extent(self, bi: int)
        requires
            self.wf(),
            0 <= bi < self.block_count(),
        ensures
            0 <= self.x0(bi),
            0 <= self.y0(bi),
            1 <= self.block_w(bi) <= self.block,
            1 <= self.block_h(bi) <= self.block,
            self.x0(bi) + self.block_w(bi) <= self.width,
            self.y0(bi) + self.block_h(bi) <= self.height,
            1 <= self.area(bi),
    {
        self.lemma_block_number(bi);
        lemma_interval_span(self.width, self.block, self.col_of(bi));
        lemma_interval_span(self.height, self.block, self.row_of(bi));
        assert(1 <= self.block_w(bi) * self.block_h(bi)) by (nonlinear_arith)
            requires
                1 <= self.block_w(bi),
                1 <= self.block_h(bi),
        ;
    }

    /// A pixel inside the extent of block `bi` belongs to block `bi`, and
    /// its rank is below the block's area.
    pub proof fn lemma_pixel_in_block(self, bi: int, x: int, y: int)
        requires
            self.wf(),
            0 <= bi < self.block_count(),
            self.in_block(bi, x, y),
        ensures
            self.in_image(x, y),
            self.block_of(x, y) == bi,
            0 <= self.rank_in(bi, x, y) < self.area(bi),
            self.x_at(bi, self.rank_in(bi, x, y)) == x,
            self.y_at(bi, self.rank_in(bi, x, y)) == y,
    {
        self.lemma_block_number(bi);
        self.lemma_block_extent(bi);
        lemma_interval_span(self.width, self.block, self.col_of(bi));
        lemma_interval_span(self.height, self.block, self.row_of(bi));
        assert(x / (self.block as int) == self.col_of(bi));
        assert(y / (self.block as int) == self.row_of(bi));
        crate::raster::lemma_row_major_index(
            self.block_w(bi),
            self.block_h(bi),
            x - self.x0(bi),
            y - self.y0(bi),
        );
    }

    /// Every pixel of the image lies inside the extent of its block.
    pub proof fn lemma_block_of_pixel(self, x: int, y: int)
        requires
            self.wf(),
            self.in_image(x, y),
        ensures
            0 <= self.block_of(x, y) < self.block_count(),
            self.in_block(self.block_of(x, y), x, y),
    {
        lemma_interval_of(self.width, self.block, x);
        lemma_interval_of(self.height, self.block, y);
        self.lemma_block_at(x / (self.block as int), y / (self.block as int));
    }

    /// There are no more blocks than pixels.
    pub proof fn lemma_block_count_bound(self)
        requires
            self.wf(),
        ensures
            self.block_count() <= self.width * self.height,
    {
        let b = self.block as int;
        if self.width > 0 {
            vstd::arithmetic::div_mod::lemma_div_is_ordered_by_denominator(self.width - 1, 1, b);
        }
        if self.height > 0 {
            vstd::arithmetic::div_mod::lemma_div_is_ordered_by_denominator(self.height - 1, 1, b);
        }
        assert(self.blocks_x() * self.blocks_y() <= self.width * self.height) by (nonlinear_arith)
            requires
                0 <= self.blocks_x() <= self.width,
                0 <= self.blocks_y() <= self.height,
        ;
    }
}

} // verus!
