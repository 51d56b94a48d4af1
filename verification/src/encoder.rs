//! Encoding an image: clustering, block classification, residual lists,
//! byte flattening, entropy coding and framing.
use vstd::prelude::*;
use bytes::Bytes;
use crate::cloud::{gen_euclid_cloud, gen_point_cloud, lemma_point_cloud_layout, point_cloud};
use crate::cluster_map::{calc_cluster_map, lemma_map_of_labels};
use crate::container::{container, write_container, Parts, Segments};
use crate::decoder::{container_outcome, rebuild_outcome};
use crate::entropy::{comp_data, deflated, DEFLATE_LEVEL};
use crate::errors::EncodeError;
use crate::flatten::{
    biased, bytes_list, flat, flatten_list, lemma_unbiased_biased, lemma_unflat_flat,
    signed_bytes_list, unflat,
};
use crate::grid::{calc_grid, grid_codes, id_at, MIXED};
use crate::kmeans::{clusters_of, kmeans_clustering, kmeans_labels, lemma_kmeans_labels};
use crate::layout::Layout;
use crate::palette::{calc_cluster_colors, color_table, flatten_cc};
use crate::raster::{fits_memory, Image, PixelMatrix};
use crate::reconstruct::{decoded_matrix, decoded_pixel};
use crate::residual::{
    abs_list, calc_data_lists, lemma_abs_list_entry, lemma_abs_list_len, lemma_restore_delta,
    norm_list, reference_color, residual_index,
};
use crate::wire::bytes_contents;

verus! {

/// What encoding derives from an image before any byte is written.
pub struct Encoding {
    /// One code per block.
    pub codes: Seq<u8>,
    /// One color per cluster.
    pub colors: Seq<[u8; 3]>,
    /// The deltas of the pixels of mixed blocks.
    pub norm: Seq<[i8; 3]>,
    /// The exact colors of the pixels of mixed blocks.
    pub abs: Seq<[u8; 3]>,
}

/// Whether block size and cluster count can be encoded with: neither is
/// zero, and the cluster count stays below the code of a mixed block.
pub open spec fn valid_config(b_size: nat, k: nat) -> bool {
    b_size >= 1 && 1 <= k < MIXED
}

/// The layout of an image under a block size.
pub open spec fn layout_of(img: PixelMatrix, b_size: nat) -> Layout {
    Layout { block: b_size, width: img.width, height: img.height }
}

/// The encoding of an image with block size `b_size` and `k` clusters.
pub open spec fn encoding_of(img: PixelMatrix, b_size: nat, k: nat) -> Encoding {
    let points = point_cloud(img);
    let labels = kmeans_labels(points, k);
    let lay = layout_of(img, b_size);
    let codes = grid_codes(labels, lay);
    let colors = color_table(clusters_of(labels, k), points);
    let abs = abs_list(img, lay, codes, lay.block_count());
    Encoding { codes, colors, norm: norm_list(abs, reference_color(colors)), abs }
}

/// The four segments of an encoding before entropy coding.
pub open spec fn plain_segments(e: Encoding) -> Segments {
    Segments { grid: e.codes, table: flat(e.colors), norm: biased(flat(e.norm)), abs: flat(e.abs) }
}

/// The four segments as the container holds them: grid, norm and abs
/// entropy-coded, the color table as it is.
pub open spec fn coded_segments(s: Segments) -> Segments {
    Segments {
        grid: deflated(s.grid, DEFLATE_LEVEL),
        table: s.table,
        norm: deflated(s.norm, DEFLATE_LEVEL),
        abs: deflated(s.abs, DEFLATE_LEVEL),
    }
}

/// The image that an encoding stands for: the image's own pixel wherever
/// the pixel's block is mixed, the color of the block's cluster elsewhere.
pub open spec fn approximation(img: PixelMatrix, lay: Layout, codes: Seq<u8>, colors: Seq<[u8; 3]>) -> PixelMatrix {
    PixelMatrix {
        width: lay.width,
        height: lay.height,
        pixels: Seq::new(
            lay.width * lay.height,
            |i: int|
                if codes[lay.block_of(i % (lay.width as int), i / (lay.width as int))] == MIXED {
                    img.pixel(i % (lay.width as int), i / (lay.width as int))
                } else {
                    colors[codes[lay.block_of(i % (lay.width as int), i / (lay.width as int))] as int]
                },
        ),
    }
}

/// Every block code of an encoding is `MIXED` or the number of a cluster.
pub proof fn lemma_codes_in_range(img: PixelMatrix, b_size: nat, k: nat, bi: int)
    requires
        img.wf(),
        valid_config(b_size, k),
        0 <= bi < layout_of(img, b_size).block_count(),
    ensures
        encoding_of(img, b_size, k).codes[bi] == MIXED || encoding_of(img, b_size, k).codes[bi] < k,
{
    let points = point_cloud(img);
    let labels = kmeans_labels(points, k);
    let lay = layout_of(img, b_size);
    lemma_kmeans_labels(points, k);
    lay.lemma_block_extent(bi);
    crate::raster::lemma_row_major_index(
        lay.width as int,
        lay.height as int,
        lay.x0(bi),
        lay.y0(bi),
    );
    assert(id_at(labels, lay.width, lay.x0(bi), lay.y0(bi)) < k);
}

/// Rebuilding the segments of an encoding, as they are before entropy
/// coding, gives the image's own pixel wherever the pixel's block is mixed
/// and the color of the block's cluster elsewhere.
pub proof fn lemma_rebuild_encoding(img: PixelMatrix, b_size: nat, k: nat)
    requires
        img.wf(),
        fits_memory(img.pixels.len()),
        valid_config(b_size, k),
    ensures
        rebuild_outcome(plain_segments(encoding_of(img, b_size, k)), layout_of(img, b_size)) == Ok::<
            PixelMatrix,
            crate::errors::DecodeError,
        >(
            approximation(
                img,
                layout_of(img, b_size),
                encoding_of(img, b_size, k).codes,
                encoding_of(img, b_size, k).colors,
            ),
        ),
{
    let enc = encoding_of(img, b_size, k);
    let lay = layout_of(img, b_size);
    let parts = plain_segments(enc);
    let reference = reference_color(enc.colors);
    lemma_unflat_flat(enc.colors);
    lemma_unflat_flat(enc.abs);
    lemma_unflat_flat(enc.norm);
    lemma_unbiased_biased(flat(enc.norm));
    assert(unflat(parts.norm) is Some);
    lemma_abs_list_len(img, lay, enc.codes, lay.block_count());
    assert forall|bi: int| 0 <= bi < enc.codes.len() implies #[trigger] enc.codes[bi] == MIXED
        || enc.codes[bi] < enc.colors.len() by {
        lemma_codes_in_range(img, b_size, k, bi);
    }
    let got = decoded_matrix(enc.norm, enc.abs, lay, enc.codes, enc.colors);
    let want = approximation(img, lay, enc.codes, enc.colors);
    assert forall|i: int| 0 <= i < lay.width * lay.height implies got.pixels[i] == want.pixels[i] by {
        let w = lay.width as int;
        crate::raster::lemma_index_position(w, lay.height as int, i);
        let x = i % w;
        let y = i / w;
        if enc.codes[lay.block_of(x, y)] == MIXED {
            lemma_abs_list_entry(img, lay, enc.codes, x, y);
            let t = residual_index(lay, enc.codes, x, y);
            lemma_restore_delta(enc.abs[t], reference);
            assert(enc.norm[t] == crate::residual::delta(enc.abs[t], reference));
        }
        assert(got.pixels[i] == decoded_pixel(enc.norm, enc.abs, lay, enc.codes, enc.colors, x, y));
    }
    assert(got.pixels =~= want.pixels);
}

/// Encodes an image into a container. Refused when the block size or the
/// cluster count is zero, or when the cluster count does not stay below
/// the code of a mixed block. The container decodes, under the same block
/// size and dimensions, to the image's approximation: exact in mixed
/// blocks, the cluster's mean color in uniform ones.
pub fn comp_img(img: &Image, b_size: usize, k_n: usize) -> (r: Result<Bytes, EncodeError>)
    requires
        img.wf(),
    ensures
        r is Ok <==> valid_config(b_size as nat, k_n as nat),
        r matches Err(e) ==> e == EncodeError::Config,
        r matches Ok(bs) ==> bytes_contents(bs) == container(
            coded_segments(plain_segments(encoding_of(img@, b_size as nat, k_n as nat))),
        ),
        r matches Ok(bs) ==> container_outcome(bytes_contents(bs), layout_of(img@, b_size as nat))
            == Ok::<PixelMatrix, crate::errors::DecodeError>(
            approximation(
                img@,
                layout_of(img@, b_size as nat),
                encoding_of(img@, b_size as nat, k_n as nat).codes,
                encoding_of(img@, b_size as nat, k_n as nat).colors,
            ),
        ),
{
    if b_size == 0 || k_n == 0 || k_n >= MIXED as usize {
        return Err(EncodeError::Config);
    }
    let ghost enc = encoding_of(img@, b_size as nat, k_n as nat);
    let ghost labels = kmeans_labels(point_cloud(img@), k_n as nat);
    let total = img.pixels.len();
    let cloud = gen_euclid_cloud(img);
    let cluster = kmeans_clustering(&cloud, k_n);
    let points = gen_point_cloud(img);
    proof {
        lemma_point_cloud_layout(img@);
        lemma_kmeans_labels(points@, k_n as nat);
    }
    let cluster_map = calc_cluster_map(&cluster, &points, img.dim());
    proof {
        lemma_map_of_labels(labels, k_n as nat, cluster_map.ids@);
    }
    let grid = calc_grid(&cluster_map, b_size);
    let cluster_colors = calc_cluster_colors(&cluster, &points);
    let lists = calc_data_lists(img, &grid, &cluster_colors);
    let norm_f = flatten_list(&lists.norm);
    let abs_f = flatten_list(&lists.abs);
    let norm_b = signed_bytes_list(&norm_f);
    let abs_b = bytes_list(&abs_f);
    let norm_c = comp_data(&norm_b);
    let abs_c = comp_data(&abs_b);
    let gl = grid.to_list();
    let gl_b = bytes_list(&gl);
    let gl_c = comp_data(&gl_b);
    let cc = flatten_cc(&cluster_colors);
    let cc_b = bytes_list(&cc);
    let parts = Parts { grid: gl_c, table: cc_b, norm: norm_c, abs: abs_c };
    proof {
        assert(grid.layout() == layout_of(img@, b_size as nat));
        assert(grid.codes@ == enc.codes);
        assert(cluster_colors@ == enc.colors);
        assert(lists.abs@ == enc.abs);
        assert(lists.norm@ == enc.norm);
        assert(parts@ == coded_segments(plain_segments(enc)));
        lemma_rebuild_encoding(img@, b_size as nat, k_n as nat);
    }
    Ok(write_container(parts))
}

} // verus!
