//! The residual lists: exact data for the pixels of mixed blocks.
//!
//! Pixels are listed block by block in block order, and inside a block row
//! by row. No coordinates are stored: the place of an entry in the lists
//! is the only link to its pixel.
use vstd::prelude::*;
use crate::grid::{Grid, Tiling, MIXED};
use crate::layout::Layout;
use crate::raster::{Image, PixelMatrix};

verus! {

/// The color that deltas are taken from: the color of cluster 0, or black
/// for an empty color table.
pub open spec fn reference_color(colors: Seq<[u8; 3]>) -> [u8; 3] {
    if colors.len() > 0 {
        colors[0]
    } else {
        [0u8, 0u8, 0u8]
    }
}

/// The difference `v - r`, saturated to the range of a signed byte.
pub open spec fn delta_channel(v: u8, r: u8) -> i8 {
    if v - r > 127 {
        127i8
    } else if v - r < -128 {
        -128i8
    } else {
        (v - r) as i8
    }
}

/// The per-channel saturated difference between a color and the reference.
pub open spec fn delta(c: [u8; 3], r: [u8; 3]) -> [i8; 3] {
    [delta_channel(c[0], r[0]), delta_channel(c[1], r[1]), delta_channel(c[2], r[2])]
}

/// The channel value that a residual entry stands for. A delta strictly
/// inside the signed-byte range that leads to a valid channel value is
/// applied to the reference; a delta at either end of the range may have
/// been saturated, so there the absolute value decides.
pub open spec fn restore_channel(d: i8, a: u8, r: u8) -> u8 {
    if -128 < d < 127 && 0 <= r + d <= 255 {
        (r + d) as u8
    } else {
        a
    }
}

/// The color that a pair of residual entries stands for.
pub open spec fn restore(d: [i8; 3], a: [u8; 3], r: [u8; 3]) -> [u8; 3] {
    [
        restore_channel(d[0], a[0], r[0]),
        restore_channel(d[1], a[1], r[1]),
        restore_channel(d[2], a[2], r[2]),
    ]
}

/// Restoring the entries built from a color gives that color back.
pub proof fn lemma_restore_delta(c: [u8; 3], r: [u8; 3])
    ensures
        restore(delta(c, r), c, r) == c,
{
    assert(restore(delta(c, r), c, r) =~= c);
}

/// The colors of the pixels of block `bi`, row by row.
pub open spec fn block_pixels(img: PixelMatrix, lay: Layout, bi: int) -> Seq<[u8; 3]> {
    Seq::new(lay.area(bi) as nat, |t: int| img.pixel(lay.x_at(bi, t), lay.y_at(bi, t)))
}

/// The exact colors of the pixels of the mixed blocks among the first `n`
/// blocks, in traversal order.
pub open spec fn abs_list(img: PixelMatrix, lay: Layout, codes: Seq<u8>, n: nat) -> Seq<[u8; 3]>
    decreases n,
{
    if n == 0 {
        Seq::empty()
    } else if codes[n - 1] == MIXED {
        abs_list(img, lay, codes, (n - 1) as nat) + block_pixels(img, lay, n - 1)
    } else {
        abs_list(img, lay, codes, (n - 1) as nat)
    }
}

/// The deltas of a list of colors against a reference color.
pub open spec fn norm_list(abs: Seq<[u8; 3]>, reference: [u8; 3]) -> Seq<[i8; 3]> {
    Seq::new(abs.len(), |i: int| delta(abs[i], reference))
}

/// The number of pixels in the mixed blocks among the first `n` blocks.
pub open spec fn mixed_offset(lay: Layout, codes: Seq<u8>, n: nat) -> nat
    decreases n,
{
    if n == 0 {
        0
    } else if codes[n - 1] == MIXED {
        mixed_offset(lay, codes, (n - 1) as nat) + lay.area(n - 1) as nat
    } else {
        mixed_offset(lay, codes, (n - 1) as nat)
    }
}

/// The number of pixels that lie in mixed blocks.
pub open spec fn mixed_total(lay: Layout, codes: Seq<u8>) -> nat {
    mixed_offset(lay, codes, lay.block_count())
}

/// The place in the residual lists of pixel `(x, y)` of a mixed block:
/// the pixels of the mixed blocks before its block come first, then the
/// pixels that precede it in its own block.
pub open spec fn residual_index(lay: Layout, codes: Seq<u8>, x: int, y: int) -> int {
    mixed_offset(lay, codes, lay.block_of(x, y) as nat) + lay.rank_in(lay.block_of(x, y), x, y)
}

/// The offsets of the mixed blocks grow with the block number.
pub proof fn lemma_mixed_offset_monotone(lay: Layout, codes: Seq<u8>, m: nat, n: nat)
    requires
        lay.wf(),
        m <= n <= lay.block_count(),
    ensures
        mixed_offset(lay, codes, m) <= mixed_offset(lay, codes, n),
    decreases n,
{
    if m < n {
        lemma_mixed_offset_monotone(lay, codes, m, (n - 1) as nat);
        lay.lemma_block_extent(n - 1);
    }
}

/// The list of exact colors holds one entry per pixel of a mixed block.
pub proof fn lemma_abs_list_len(img: PixelMatrix, lay: Layout, codes: Seq<u8>, n: nat)
    requires
        lay.wf(),
        n <= lay.block_count(),
    ensures
        abs_list(img, lay, codes, n).len() == mixed_offset(lay, codes, n),
    decreases n,
{
    if n > 0 {
        lemma_abs_list_len(img, lay, codes, (n - 1) as nat);
        lay.lemma_block_extent(n - 1);
    }
}

/// Entries of the first `m` blocks keep their place when more blocks follow.
pub proof fn lemma_abs_list_prefix(img: PixelMatrix, lay: Layout, codes: Seq<u8>, m: nat, n: nat)
    requires
        lay.wf(),
        m <= n <= lay.block_count(),
    ensures
        abs_list(img, lay, codes, m).len() <= abs_list(img, lay, codes, n).len(),
        abs_list(img, lay, codes, n).take(abs_list(img, lay, codes, m).len() as int) == abs_list(
            img,
            lay,
            codes,
            m,
        ),
    decreases n,
{
    let short = abs_list(img, lay, codes, m);
    if m < n {
        lemma_abs_list_prefix(img, lay, codes, m, (n - 1) as nat);
        let prev = abs_list(img, lay, codes, (n - 1) as nat);
        assert(abs_list(img, lay, codes, n).take(short.len() as int) =~= prev.take(
            short.len() as int,
        ));
    } else {
        assert(short.take(short.len() as int) =~= short);
    }
}

/// The entry of a pixel of a mixed block stands at the pixel's residual
/// index and holds the pixel's color.
pub proof fn lemma_abs_list_entry(img: PixelMatrix, lay: Layout, codes: Seq<u8>, x: int, y: int)
    requires
        lay.wf(),
        lay.in_image(x, y),
        codes[lay.block_of(x, y)] == MIXED,
    ensures
        0 <= residual_index(lay, codes, x, y) < mixed_total(lay, codes),
        abs_list(img, lay, codes, lay.block_count())[residual_index(lay, codes, x, y)]
            == img.pixel(x, y),
{
    let bi = lay.block_of(x, y);
    lay.lemma_block_of_pixel(x, y);
    lay.lemma_pixel_in_block(bi, x, y);
    let n = lay.block_count();
    let upto = abs_list(img, lay, codes, (bi + 1) as nat);
    let before = abs_list(img, lay, codes, bi as nat);
    let t = lay.rank_in(bi, x, y);
    lemma_abs_list_len(img, lay, codes, bi as nat);
    lemma_abs_list_len(img, lay, codes, (bi + 1) as nat);
    lemma_abs_list_len(img, lay, codes, n);
    lemma_abs_list_prefix(img, lay, codes, (bi + 1) as nat, n);
    assert(upto == before + block_pixels(img, lay, bi));
    assert(upto[before.len() + t] == block_pixels(img, lay, bi)[t]);
    let all = abs_list(img, lay, codes, n);
    assert(all.take(upto.len() as int)[before.len() + t] == all[before.len() + t]);
}

/// The two residual lists of an image.
#[derive(Clone, Debug, PartialEq, Eq)]
pub struct ResidualLists {
    /// Per pixel, the saturated difference to the reference color.
    pub norm: Vec<[i8; 3]>,
    /// Per pixel, the exact color.
    pub abs: Vec<[u8; 3]>,
}

/// The saturated difference of one channel.
pub fn channel_delta(v: u8, r: u8) -> (d: i8)
    ensures
        d == delta_channel(v, r),
{
    let diff: i16 = v as i16 - r as i16;
    if diff > 127 {
        127
    } else if diff < -128 {
        -128
    } else {
        diff as i8
    }
}

/// The saturated per-channel difference of a color to the reference.
pub fn color_delta(c: &[u8; 3], r: &[u8; 3]) -> (d: [i8; 3])
    ensures
        d == delta(*c, *r),
{
    [channel_delta(c[0], r[0]), channel_delta(c[1], r[1]), channel_delta(c[2], r[2])]
}

/// The reference color of a color table.
pub fn reference_of(colors: &Vec<[u8; 3]>) -> (r: [u8; 3])
    ensures
        r == reference_color(colors@),
{
    if colors.len() > 0 {
        colors[0]
    } else {
        [0u8, 0u8, 0u8]
    }
}

/// Appends the entries of every pixel of block number `bi`, row by row.
fn push_block(img: &Image, tiling: &Tiling, bi: usize, reference: &[u8; 3], lists: &mut ResidualLists)
    requires
        img.wf(),
        tiling@.wf(),
        tiling.width == img.width,
        tiling.height == img.height,
        bi < tiling@.block_count(),
    ensures
        final(lists).abs@ == old(lists).abs@ + block_pixels(img@, tiling@, bi as int),
        final(lists).norm@ == old(lists).norm@ + norm_list(
            block_pixels(img@, tiling@, bi as int),
            *reference,
        ),
{
    let ghost lay = tiling@;
    let ghost block = block_pixels(img@, lay, bi as int);
    let ghost deltas = norm_list(block, *reference);
    let ghost mut t: int = 0;
    let r = tiling.rect_of(bi);
    proof {
        assert(lists.abs@ =~= old(lists).abs@ + block.take(0));
        assert(lists.norm@ =~= old(lists).norm@ + deltas.take(0));
    }
    let mut y: u32 = r.y0;
    while y < r.y0 + r.h
        invariant
            img.wf(),
            lay == tiling@,
            lay.wf(),
            lay.width == img.width,
            lay.height == img.height,
            bi < lay.block_count(),
            block == block_pixels(img@, lay, bi as int),
            deltas == norm_list(block, *reference),
            r.covers(lay, bi as int),
            r.y0 <= y <= r.y0 + r.h,
            t == (y - r.y0) * r.w,
            0 <= t <= block.len(),
            lists.abs@ == old(lists).abs@ + block.take(t),
            lists.norm@ == old(lists).norm@ + deltas.take(t),
        decreases r.y0 + r.h - y,
    {
        let mut x: u32 = r.x0;
        while x < r.x0 + r.w
            invariant
                img.wf(),
                lay == tiling@,
                lay.wf(),
                lay.width == img.width,
                lay.height == img.height,
                bi < lay.block_count(),
                block == block_pixels(img@, lay, bi as int),
                deltas == norm_list(block, *reference),
                r.covers(lay, bi as int),
                r.y0 <= y < r.y0 + r.h,
                r.x0 <= x <= r.x0 + r.w,
                t == (y - r.y0) * r.w + (x - r.x0),
                0 <= t <= block.len(),
                lists.abs@ == old(lists).abs@ + block.take(t),
                lists.norm@ == old(lists).norm@ + deltas.take(t),
            decreases r.x0 + r.w - x,
        {
            let c = img.get_pixel(x, y);
            let d = color_delta(&c, reference);
            proof {
                lay.lemma_pixel_in_block(bi as int, x as int, y as int);
                assert(t == lay.rank_in(bi as int, x as int, y as int));
                assert(block[t] == c);
                assert(deltas[t] == d);
                assert(block.take(t + 1) =~= block.take(t).push(c));
                assert(deltas.take(t + 1) =~= deltas.take(t).push(d));
            }
            lists.abs.push(c);
            lists.norm.push(d);
            proof {
                assert(lists.abs@ =~= old(lists).abs@ + block.take(t + 1));
                assert(lists.norm@ =~= old(lists).norm@ + deltas.take(t + 1));
                t = t + 1;
            }
            x += 1;
        }
        proof {
            assert((y - r.y0) * r.w + r.w == (y + 1 - r.y0) * r.w) by (nonlinear_arith);
        }
        y += 1;
    }
    proof {
        assert(t == block.len()) by (nonlinear_arith)
            requires
                t == r.h * r.w,
                block.len() == r.w * r.h,
        ;
        assert(block.take(t) =~= block);
        assert(deltas.take(t) =~= deltas);
    }
}

/// Builds the residual lists of an image: for every pixel of a mixed block,
/// in traversal order, its saturated difference to the reference color and
/// its exact color.
pub fn calc_data_lists(img: &Image, grid: &Grid, cluster_colors: &Vec<[u8; 3]>) -> (lists:
    ResidualLists)
    requires
        img.wf(),
        grid.wf(),
        grid.tiling.width == img.width,
        grid.tiling.height == img.height,
    ensures
        lists.abs@ == abs_list(img@, grid.layout(), grid.codes@, grid.layout().block_count()),
        lists.norm@ == norm_list(lists.abs@, reference_color(cluster_colors@)),
{
    let tiling = grid.tiling;
    let ghost lay = tiling@;
    let ghost codes = grid.codes@;
    let reference = reference_of(cluster_colors);
    let mut lists = ResidualLists { norm: Vec::new(), abs: Vec::new() };
    let count = grid.codes.len();
    let mut bi: usize = 0;
    proof {
        assert(lists.norm@ =~= norm_list(lists.abs@, reference));
    }
    while bi < count
        invariant
            img.wf(),
            grid.wf(),
            tiling == grid.tiling,
            lay == tiling@,
            codes == grid.codes@,
            lay.width == img.width,
            lay.height == img.height,
            count == lay.block_count(),
            bi <= count,
            lists.abs@ == abs_list(img@, lay, codes, bi as nat),
            lists.norm@ == norm_list(lists.abs@, reference),
        decreases count - bi,
    {
        if grid.codes[bi] == MIXED {
            push_block(img, &tiling, bi, &reference, &mut lists);
            proof {
                assert(lists.norm@ =~= norm_list(lists.abs@, reference));
            }
        }
        bi += 1;
    }
    lists
}

} // verus!
