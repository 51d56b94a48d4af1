//! The reconstructor: from block codes, color table and residual lists back
//! to the pixel matrix.
use vstd::prelude::*;
use crate::errors::DecodeError;
use crate::grid::{Grid, Tiling, MIXED};
use crate::layout::Layout;
use crate::raster::{fits_memory, lemma_product_fits, lemma_row_major_index, Image, PixelMatrix};
use crate::residual::{
    lemma_mixed_offset_monotone, mixed_offset, mixed_total, reference_color, reference_of,
    residual_index, restore, restore_channel,
};

verus! {

/// The color that a block of code `code` gives to the pixel whose residual
/// entries stand at place `t`: for a mixed block what those entries
/// restore, else the color of the cluster `code`.
pub open spec fn entry_color(
    code: u8,
    colors: Seq<[u8; 3]>,
    norm: Seq<[i8; 3]>,
    abs: Seq<[u8; 3]>,
    t: int,
) -> [u8; 3] {
    if code == MIXED {
        restore(norm[t], abs[t], reference_color(colors))
    } else {
        colors[code as int]
    }
}

/// The color of pixel `(x, y)` in the reconstructed image.
pub open spec fn decoded_pixel(
    norm: Seq<[i8; 3]>,
    abs: Seq<[u8; 3]>,
    lay: Layout,
    codes: Seq<u8>,
    colors: Seq<[u8; 3]>,
    x: int,
    y: int,
) -> [u8; 3] {
    entry_color(codes[lay.block_of(x, y)], colors, norm, abs, residual_index(lay, codes, x, y))
}

/// The reconstructed image.
pub open spec fn decoded_matrix(
    norm: Seq<[i8; 3]>,
    abs: Seq<[u8; 3]>,
    lay: Layout,
    codes: Seq<u8>,
    colors: Seq<[u8; 3]>,
) -> PixelMatrix {
    PixelMatrix {
        width: lay.width,
        height: lay.height,
        pixels: Seq::new(
            lay.width * lay.height,
            |i: int|
                decoded_pixel(
                    norm,
                    abs,
                    lay,
                    codes,
                    colors,
                    i % (lay.width as int),
                    i / (lay.width as int),
                ),
        ),
    }
}

/// Whether some block names a cluster that the color table does not hold.
pub open spec fn unknown_cluster(codes: Seq<u8>, colors: Seq<[u8; 3]>) -> bool {
    exists|bi: int| 0 <= bi < codes.len() && #[trigger] codes[bi] != MIXED && codes[bi] >= colors.len()
}

/// What reconstruction yields: the image, or the first of the reasons
/// against it.
pub open spec fn decode_outcome(
    norm: Seq<[i8; 3]>,
    abs: Seq<[u8; 3]>,
    lay: Layout,
    codes: Seq<u8>,
    colors: Seq<[u8; 3]>,
) -> Result<PixelMatrix, DecodeError> {
    if !fits_memory(lay.width * lay.height) {
        Err(DecodeError::TooLarge)
    } else if unknown_cluster(codes, colors) {
        Err(DecodeError::UnknownCluster)
    } else if norm.len() != mixed_total(lay, codes) || abs.len() != mixed_total(lay, codes) {
        Err(DecodeError::ResidualLength)
    } else {
        Ok(decoded_matrix(norm, abs, lay, codes, colors))
    }
}

/// The model of a decoding result.
pub open spec fn outcome_view(r: Result<Image, DecodeError>) -> Result<PixelMatrix, DecodeError> {
    match r {
        Ok(img) => Ok(img@),
        Err(e) => Err(e),
    }
}

/// The entry of a row-major pixel sequence for column `x` of row `y`.
pub open spec fn cell(pixels: Seq<[u8; 3]>, width: nat, x: int, y: int) -> [u8; 3] {
    pixels[y * width + x]
}

/// Writing one pixel of a row-major sequence changes that pixel alone.
pub proof fn lemma_cell_update(pixels: Seq<[u8; 3]>, lay: Layout, x: int, y: int, v: [u8; 3])
    requires
        lay.in_image(x, y),
        pixels.len() == lay.width * lay.height,
    ensures
        forall|px: int, py: int|
            lay.in_image(px, py) ==> #[trigger] cell(
                pixels.update(y * lay.width + x, v),
                lay.width,
                px,
                py,
            ) == (if px == x && py == y {
                v
            } else {
                cell(pixels, lay.width, px, py)
            }),
{
    assert forall|px: int, py: int| lay.in_image(px, py) implies #[trigger] cell(
        pixels.update(y * lay.width + x, v),
        lay.width,
        px,
        py,
    ) == (if px == x && py == y {
        v
    } else {
        cell(pixels, lay.width, px, py)
    }) by {
        lemma_row_major_index(lay.width as int, lay.height as int, px, py);
        lemma_row_major_index(lay.width as int, lay.height as int, x, y);
    }
}

/// The channel value that a residual entry stands for.
pub fn channel_restore(d: i8, a: u8, r: u8) -> (v: u8)
    ensures
        v == restore_channel(d, a, r),
{
    let sum: i16 = r as i16 + d as i16;
    if d > -128 && d < 127 && sum >= 0 && sum <= 255 {
        sum as u8
    } else {
        a
    }
}

/// The color that a pair of residual entries stands for.
pub fn color_restore(d: &[i8; 3], a: &[u8; 3], r: &[u8; 3]) -> (c: [u8; 3])
    ensures
        c == restore(*d, *a, *r),
{
    [
        channel_restore(d[0], a[0], r[0]),
        channel_restore(d[1], a[1], r[1]),
        channel_restore(d[2], a[2], r[2]),
    ]
}

/// Whether every block code is `MIXED` or names an entry of the color table.
pub fn codes_known(codes: &Vec<u8>, colors: &Vec<[u8; 3]>) -> (ok: bool)
    ensures
        ok == !unknown_cluster(codes@, colors@),
{
    let mut i: usize = 0;
    while i < codes.len()
        invariant
            i <= codes@.len(),
            forall|bi: int| 0 <= bi < i ==> #[trigger] codes@[bi] == MIXED || codes@[bi] < colors@.len(),
        decreases codes@.len() - i,
    {
        if codes[i] != MIXED && codes[i] as usize >= colors.len() {
            return false;
        }
        i += 1;
    }
    true
}

/// Counts the pixels of the mixed blocks, as far as they do not exceed
/// `limit`; `None` when there are more.
pub fn count_mixed(grid: &Grid, limit: usize) -> (r: Option<usize>)
    requires
        grid.wf(),
    ensures
        match r {
            Some(n) => n == mixed_total(grid.layout(), grid.codes@) && n <= limit,
            None => mixed_total(grid.layout(), grid.codes@) > limit,
        },
{
    let tiling = grid.tiling;
    let ghost lay = tiling@;
    let ghost codes = grid.codes@;
    let count = grid.codes.len();
    let mut acc: usize = 0;
    let mut bi: usize = 0;
    while bi < count
        invariant
            grid.wf(),
            tiling == grid.tiling,
            lay == tiling@,
            codes == grid.codes@,
            count == lay.block_count(),
            bi <= count,
            acc == mixed_offset(lay, codes, bi as nat),
            acc <= limit,
        decreases count - bi,
    {
        if grid.codes[bi] == MIXED {
            let r = tiling.rect_of(bi);
            proof {
                lemma_product_fits(r.w as int, r.h as int);
            }
            let area: u64 = (r.w as u64) * (r.h as u64);
            if area > (limit - acc) as u64 {
                proof {
                    lemma_mixed_offset_monotone(lay, codes, (bi + 1) as nat, lay.block_count());
                }
                return None;
            }
            acc = acc + area as usize;
        }
        bi += 1;
    }
    Some(acc)
}

/// Writes the pixels of block number `bi`: the cluster color for a uniform
/// block, the restored residual entries from place `pos` on for a mixed one.
fn fill_block(
    out: &mut Vec<[u8; 3]>,
    tiling: &Tiling,
    bi: usize,
    code: u8,
    colors: &Vec<[u8; 3]>,
    norm: &Vec<[i8; 3]>,
    abs: &Vec<[u8; 3]>,
    pos: usize,
)
    requires
        tiling@.wf(),
        old(out)@.len() == tiling.width * tiling.height,
        bi < tiling@.block_count(),
        code != MIXED ==> code < colors@.len(),
        code == MIXED ==> pos + tiling@.area(bi as int) <= norm@.len(),
        norm@.len() == abs@.len(),
    ensures
        final(out)@.len() == old(out)@.len(),
        forall|x: int, y: int|
            tiling@.in_image(x, y) && !tiling@.in_block(bi as int, x, y) ==> #[trigger] cell(
                final(out)@,
                tiling@.width,
                x,
                y,
            ) == cell(old(out)@, tiling@.width, x, y),
        forall|x: int, y: int|
            tiling@.in_block(bi as int, x, y) ==> #[trigger] cell(final(out)@, tiling@.width, x, y)
                == entry_color(
                code,
                colors@,
                norm@,
                abs@,
                pos + tiling@.rank_in(bi as int, x, y),
            ),
{
    let ghost lay = tiling@;
    let r = tiling.rect_of(bi);
    let reference = reference_of(colors);
    let width = tiling.width as usize;
    let entries = norm.len();
    let total = out.len();
    let mut k: usize = pos;
    let mut y: u32 = r.y0;
    while y < r.y0 + r.h
        invariant
            lay == tiling@,
            lay.wf(),
            width == tiling.width,
            entries == norm@.len(),
            total == out@.len(),
            out@.len() == old(out)@.len(),
            out@.len() == tiling.width * tiling.height,
            bi < lay.block_count(),
            r.covers(lay, bi as int),
            r.y0 <= y <= r.y0 + r.h,
            reference == reference_color(colors@),
            code != MIXED ==> code < colors@.len(),
            code == MIXED ==> pos + lay.area(bi as int) <= norm@.len(),
            norm@.len() == abs@.len(),
            code == MIXED ==> k == pos + (y - r.y0) * r.w,
            forall|px: int, py: int|
                lay.in_image(px, py) && !lay.in_block(bi as int, px, py) ==> #[trigger] cell(
                    out@,
                    lay.width,
                    px,
                    py,
                ) == cell(old(out)@, lay.width, px, py),
            forall|px: int, py: int|
                lay.in_block(bi as int, px, py) && py < y ==> #[trigger] cell(
                    out@,
                    lay.width,
                    px,
                    py,
                ) == entry_color(code, colors@, norm@, abs@, pos + lay.rank_in(bi as int, px, py)),
        decreases r.y0 + r.h - y,
    {
        let mut x: u32 = r.x0;
        while x < r.x0 + r.w
            invariant
                lay == tiling@,
                lay.wf(),
                width == tiling.width,
                entries == norm@.len(),
                total == out@.len(),
                out@.len() == old(out)@.len(),
                out@.len() == tiling.width * tiling.height,
                bi < lay.block_count(),
                r.covers(lay, bi as int),
                r.y0 <= y < r.y0 + r.h,
                r.x0 <= x <= r.x0 + r.w,
                reference == reference_color(colors@),
                code != MIXED ==> code < colors@.len(),
                code == MIXED ==> pos + lay.area(bi as int) <= norm@.len(),
                norm@.len() == abs@.len(),
                code == MIXED ==> k == pos + (y - r.y0) * r.w + (x - r.x0),
                forall|px: int, py: int|
                    lay.in_image(px, py) && !lay.in_block(bi as int, px, py) ==> #[trigger] cell(
                        out@,
                        lay.width,
                        px,
                        py,
                    ) == cell(old(out)@, lay.width, px, py),
                forall|px: int, py: int|
                    lay.in_block(bi as int, px, py) && (py < y || (py == y && px < x))
                        ==> #[trigger] cell(out@, lay.width, px, py) == entry_color(
                        code,
                        colors@,
                        norm@,
                        abs@,
                        pos + lay.rank_in(bi as int, px, py),
                    ),
            decreases r.x0 + r.w - x,
        {
            proof {
                lay.lemma_pixel_in_block(bi as int, x as int, y as int);
                lemma_row_major_index(
                    tiling.width as int,
                    tiling.height as int,
                    x as int,
                    y as int,
                );
                assert(0 <= (y as int) * (tiling.width as int)) by (nonlinear_arith)
                    requires
                        0 <= y,
                        0 <= tiling.width,
                ;
                assert(code == MIXED ==> k == pos + lay.rank_in(bi as int, x as int, y as int));
            }
            let color = if code == MIXED {
                color_restore(&norm[k], &abs[k], &reference)
            } else {
                colors[code as usize]
            };
            let i: usize = (y as usize) * width + (x as usize);
            let ghost before = out@;
            out.set(i, color);
            proof {
                lemma_cell_update(before, lay, x as int, y as int, color);
                assert(out@ == before.update((y as int) * (lay.width as int) + x, color));
                assert forall|px: int, py: int|
                    lay.in_image(px, py) && !lay.in_block(bi as int, px, py) implies #[trigger] cell(
                    out@,
                    lay.width,
                    px,
                    py,
                ) == cell(old(out)@, lay.width, px, py) by {
                    assert(cell(before, lay.width, px, py) == cell(old(out)@, lay.width, px, py));
                }
                assert forall|px: int, py: int|
                    lay.in_block(bi as int, px, py) && (py < y || (py == y && px < x + 1))
                    implies #[trigger] cell(out@, lay.width, px, py) == entry_color(
                    code,
                    colors@,
                    norm@,
                    abs@,
                    pos + lay.rank_in(bi as int, px, py),
                ) by {
                    lay.lemma_pixel_in_block(bi as int, px, py);
                    if px == x && py == y {
                    } else {
                        assert(cell(before, lay.width, px, py) == entry_color(
                            code,
                            colors@,
                            norm@,
                            abs@,
                            pos + lay.rank_in(bi as int, px, py),
                        ));
                    }
                }
            }
            if code == MIXED {
                k += 1;
            }
            x += 1;
        }
        proof {
            assert((y - r.y0) * r.w + r.w == (y + 1 - r.y0) * r.w) by (nonlinear_arith);
        }
        y += 1;
    }
}

/// Rebuilds the pixel matrix. Every pixel of a uniform block gets the color
/// of the block's cluster; every pixel of a mixed block gets what its pair
/// of residual entries restores. Refused when a code names a cluster
/// outside the color table, or when the residual lists do not hold exactly
/// one entry per pixel of a mixed block.
pub fn decode(
    norm: &Vec<[i8; 3]>,
    abs: &Vec<[u8; 3]>,
    grid: &Grid,
    cluster_colors: &Vec<[u8; 3]>,
) -> (r: Result<Image, DecodeError>)
    requires
        grid.wf(),
    ensures
        outcome_view(r) == decode_outcome(
            norm@,
            abs@,
            grid.layout(),
            grid.codes@,
            cluster_colors@,
        ),
        r matches Ok(img) ==> img.wf(),
{
    let tiling = grid.tiling;
    let ghost lay = tiling@;
    let ghost codes = grid.codes@;
    proof {
        lemma_product_fits(tiling.width as int, tiling.height as int);
    }
    let pixel_count: u64 = (tiling.width as u64) * (tiling.height as u64);
    if pixel_count > (isize::MAX as u64) / 3 {
        return Err(DecodeError::TooLarge);
    }
    if !codes_known(&grid.codes, cluster_colors) {
        return Err(DecodeError::UnknownCluster);
    }
    match count_mixed(grid, norm.len()) {
        None => {
            return Err(DecodeError::ResidualLength);
        },
        Some(n) => {
            if n != norm.len() || n != abs.len() {
                return Err(DecodeError::ResidualLength);
            }
        },
    }
    let mut out: Vec<[u8; 3]> = vec![[0u8, 0u8, 0u8]; pixel_count as usize];
    let count = grid.codes.len();
    let entries = norm.len();
    let mut pos: usize = 0;
    let mut bi: usize = 0;
    while bi < count
        invariant
            grid.wf(),
            tiling == grid.tiling,
            lay == tiling@,
            codes == grid.codes@,
            count == lay.block_count(),
            bi <= count,
            out@.len() == tiling.width * tiling.height,
            entries == norm@.len(),
            !unknown_cluster(codes, cluster_colors@),
            norm@.len() == mixed_total(lay, codes),
            abs@.len() == mixed_total(lay, codes),
            pos == mixed_offset(lay, codes, bi as nat),
            forall|x: int, y: int|
                lay.in_image(x, y) && lay.block_of(x, y) < bi ==> #[trigger] cell(
                    out@,
                    lay.width,
                    x,
                    y,
                ) == decoded_pixel(norm@, abs@, lay, codes, cluster_colors@, x, y),
        decreases count - bi,
    {
        proof {
            lay.lemma_block_extent(bi as int);
            lemma_mixed_offset_monotone(lay, codes, (bi + 1) as nat, lay.block_count());
        }
        let code = grid.codes[bi];
        assert(codes[bi as int] == MIXED || codes[bi as int] < cluster_colors@.len());
        let ghost before = out@;
        fill_block(&mut out, &tiling, bi, code, cluster_colors, norm, abs, pos);
        proof {
            assert forall|x: int, y: int|
                lay.in_image(x, y) && lay.block_of(x, y) < bi + 1 implies #[trigger] cell(
                out@,
                lay.width,
                x,
                y,
            ) == decoded_pixel(norm@, abs@, lay, codes, cluster_colors@, x, y) by {
                lay.lemma_block_of_pixel(x, y);
                if lay.block_of(x, y) < bi {
                    if lay.in_block(bi as int, x, y) {
                        lay.lemma_pixel_in_block(bi as int, x, y);
                    }
                    assert(cell(before, lay.width, x, y) == decoded_pixel(
                        norm@,
                        abs@,
                        lay,
                        codes,
                        cluster_colors@,
                        x,
                        y,
                    ));
                }
            }
        }
        if code == MIXED {
            let r = tiling.rect_of(bi);
            proof {
                assert(pos + lay.area(bi as int) <= entries);
            }
            pos = pos + (r.w as usize) * (r.h as usize);
        }
        bi += 1;
    }
    proof {
        let want = decoded_matrix(norm@, abs@, lay, codes, cluster_colors@);
        assert forall|i: int| 0 <= i < out@.len() implies out@[i] == want.pixels[i] by {
            let w = lay.width as int;
            crate::raster::lemma_index_position(w, lay.height as int, i);
            lay.lemma_block_of_pixel(i % w, i / w);
            assert(out@[i] == cell(out@, lay.width, i % w, i / w));
        }
        assert(out@ =~= want.pixels);
    }
    Ok(Image { width: tiling.width, height: tiling.height, pixels: out })
}

} // verus!
