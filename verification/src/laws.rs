//! What holds of the codec as a whole, proved from the definitions of its
//! stages.
use vstd::prelude::*;
use crate::cloud::point_cloud;
use crate::container::{frame, parse_container, split_frame, lemma_split_frame};
use crate::decoder::{container_outcome, rebuild_outcome};
use crate::encoder::{
    approximation, encoding_of, layout_of, lemma_rebuild_encoding, plain_segments, valid_config,
};
use crate::errors::DecodeError;
use crate::flatten::{biased, flat, lemma_unbiased_biased, lemma_unflat_flat, unbiased, unflat};
use crate::grid::{block_uniform, id_at, MIXED};
use crate::kmeans::{
    clusters_of, is_partition, kmeans_labels, lemma_clusters_partition, lemma_kmeans_labels,
    total_size,
};
use crate::layout::Layout;
use crate::palette::{lemma_mean_of_one_color, mean_color};
use crate::residual::abs_list;
use crate::raster::{fits_memory, PixelMatrix};

verus! {

/// Clustering the pixels of an image into `k` groups gives `k` groups that
/// are pairwise disjoint, hold every pixel, and whose sizes add up to
/// `width * height`.
pub proof fn lemma_clustering_splits_image(img: PixelMatrix, k: nat)
    requires
        img.wf(),
        fits_memory(img.pixels.len()),
        1 <= k <= usize::MAX,
    ensures
        clusters_of(kmeans_labels(point_cloud(img), k), k).len() == k,
        is_partition(clusters_of(kmeans_labels(point_cloud(img), k), k), img.width * img.height),
        total_size(clusters_of(kmeans_labels(point_cloud(img), k), k)) == img.width * img.height,
{
    let points = point_cloud(img);
    lemma_kmeans_labels(points, k);
    lemma_clusters_partition(kmeans_labels(points, k), k);
}

/// Decoding the bytes of a list of exact colors gives the list back.
pub proof fn lemma_abs_bytes_round_trip(list: Seq<[u8; 3]>)
    ensures
        unflat(flat(list)) == Some(list),
{
    lemma_unflat_flat(list);
}

/// Decoding the bytes of a list of deltas gives the list back.
pub proof fn lemma_delta_bytes_round_trip(list: Seq<[i8; 3]>)
    ensures
        unflat(unbiased(biased(flat(list)))) == Some(list),
{
    lemma_unbiased_biased(flat(list));
    lemma_unflat_flat(list);
}

/// Encoding an image and rebuilding it from the segments gives, at every
/// pixel of a mixed block, the pixel that was encoded, and at every pixel
/// of a uniform block the mean color of the block's cluster.
pub proof fn lemma_round_trip_pixel(img: PixelMatrix, b_size: nat, k: nat, x: int, y: int)
    requires
        img.wf(),
        fits_memory(img.pixels.len()),
        valid_config(b_size, k),
        img.in_bounds(x, y),
    ensures
        rebuild_outcome(plain_segments(encoding_of(img, b_size, k)), layout_of(img, b_size)) is Ok,
        ({
            let lay = layout_of(img, b_size);
            let enc = encoding_of(img, b_size, k);
            let code = enc.codes[lay.block_of(x, y)];
            let out = rebuild_outcome(plain_segments(enc), lay)->Ok_0;
            &&& out.wf()
            &&& out.width == img.width
            &&& out.height == img.height
            &&& code == MIXED ==> out.pixel(x, y) == img.pixel(x, y)
            &&& code != MIXED ==> code < k && out.pixel(x, y) == mean_color(
                clusters_of(kmeans_labels(point_cloud(img), k), k)[code as int],
                point_cloud(img),
            )
        }),
{
    let lay = layout_of(img, b_size);
    let enc = encoding_of(img, b_size, k);
    lemma_rebuild_encoding(img, b_size, k);
    crate::raster::lemma_row_major_index(img.width as int, img.height as int, x, y);
    lay.lemma_block_of_pixel(x, y);
    crate::encoder::lemma_codes_in_range(img, b_size, k, lay.block_of(x, y));
    let out = approximation(img, lay, enc.codes, enc.colors);
    assert(out.pixel(x, y) == out.pixels[y * img.width + x]);
}

/// No block among the first `n` is mixed: the list of exact colors is empty.
proof fn lemma_abs_list_without_mixed(img: PixelMatrix, lay: Layout, codes: Seq<u8>, n: nat)
    requires
        forall|bi: int| 0 <= bi < n ==> codes[bi] != MIXED,
    ensures
        abs_list(img, lay, codes, n).len() == 0,
    decreases n,
{
    if n > 0 {
        lemma_abs_list_without_mixed(img, lay, codes, (n - 1) as nat);
    }
}

/// An image of one color, encoded with one cluster, is one uniform code
/// throughout, has empty residual lists, and decodes to itself.
pub proof fn lemma_single_color_image(img: PixelMatrix, b_size: nat, c: [u8; 3])
    requires
        img.wf(),
        fits_memory(img.pixels.len()),
        img.width <= u32::MAX,
        img.height <= u32::MAX,
        b_size >= 1,
        forall|i: int| 0 <= i < img.pixels.len() ==> img.pixels[i] == c,
    ensures
        forall|bi: int|
            0 <= bi < layout_of(img, b_size).block_count() ==> (#[trigger] encoding_of(
                img,
                b_size,
                1,
            ).codes[bi]) == 0,
        encoding_of(img, b_size, 1).norm.len() == 0,
        encoding_of(img, b_size, 1).abs.len() == 0,
        rebuild_outcome(plain_segments(encoding_of(img, b_size, 1)), layout_of(img, b_size)) == Ok::<
            PixelMatrix,
            DecodeError,
        >(img),
{
    let lay = layout_of(img, b_size);
    let enc = encoding_of(img, b_size, 1);
    let points = point_cloud(img);
    let labels = kmeans_labels(points, 1);
    lemma_kmeans_labels(points, 1);
    assert forall|bi: int| 0 <= bi < lay.block_count() implies #[trigger] enc.codes[bi] == 0 by {
        assert forall|x: int, y: int| #[trigger] lay.in_block(bi, x, y) implies id_at(
            labels,
            lay.width,
            x,
            y,
        ) == 0 by {
            lay.lemma_pixel_in_block(bi, x, y);
            crate::raster::lemma_row_major_index(lay.width as int, lay.height as int, x, y);
        }
        lay.lemma_block_extent(bi);
        crate::raster::lemma_row_major_index(
            lay.width as int,
            lay.height as int,
            lay.x0(bi),
            lay.y0(bi),
        );
        assert(block_uniform(labels, lay, bi));
    }
    lemma_abs_list_without_mixed(img, lay, enc.codes, lay.block_count());
    lemma_rebuild_encoding(img, b_size, 1);
    let out = approximation(img, lay, enc.codes, enc.colors);
    if img.pixels.len() > 0 {
        let all = clusters_of(labels, 1)[0];
        crate::kmeans::lemma_members(labels, 0, labels.len());
        assert(crate::kmeans::count_in(labels, 0, labels.len()) == labels.len()) by {
            lemma_clusters_partition(labels, 1);
            assert(clusters_of(labels, 1).drop_last() =~= Seq::<Seq<usize>>::empty());
            assert(total_size(clusters_of(labels, 1).drop_last()) == 0);
        }
        assert forall|a: int| 0 <= a < all.len() implies (#[trigger] points[all[a] as int])[2]
            == c[0] && points[all[a] as int][3] == c[1] && points[all[a] as int][4] == c[2] by {
            assert(img.pixels[all[a] as int] == c);
        }
        lemma_mean_of_one_color(all, points, c);
        assert(enc.colors[0] == c);
    }
    assert forall|i: int| 0 <= i < img.pixels.len() implies out.pixels[i] == img.pixels[i] by {
        crate::raster::lemma_index_position(lay.width as int, lay.height as int, i);
        lay.lemma_block_of_pixel(i % (lay.width as int), i / (lay.width as int));
    }
    assert(out.pixels =~= img.pixels);
}

/// A container whose first length prefix is cut short, or exceeds the
/// bytes that follow it, is malformed; so is one in which this holds of
/// the second, third or fourth prefix.
pub proof fn lemma_cut_container_is_malformed(done: Seq<Seq<u8>>, rest: Seq<u8>, lay: Layout)
    requires
        lay.wf(),
        done.len() < 4,
        forall|i: int| 0 <= i < done.len() ==> (#[trigger] done[i]).len() <= u64::MAX,
        rest.len() < 8 || crate::container::be_value(rest.take(8)) > rest.len() - 8,
    ensures
        parse_container(framed(done) + rest) is None,
        container_outcome(framed(done) + rest, lay) == Err::<PixelMatrix, DecodeError>(
            DecodeError::Malformed,
        ),
{
    let data = framed(done) + rest;
    lemma_no_frame(rest);
    reveal_with_fuel(framed, 4);
    if done.len() == 0 {
        assert(data =~= rest);
    } else if done.len() == 1 {
        assert(data =~= frame(done[0]) + rest);
        lemma_cut_after_one(done[0], rest);
    } else if done.len() == 2 {
        assert(done.skip(1)[0] == done[1]);
        assert(data =~= frame(done[0]) + (frame(done[1]) + rest));
        lemma_cut_after_two(done[0], done[1], rest);
    } else {
        assert(done.skip(1)[0] == done[1]);
        assert(done.skip(1).skip(1)[0] == done[2]);
        assert(data =~= frame(done[0]) + (frame(done[1]) + (frame(done[2]) + rest)));
        lemma_cut_after_three(done[0], done[1], done[2], rest);
    }
}

/// Bytes that start with a cut or overlong length prefix hold no segment.
proof fn lemma_no_frame(rest: Seq<u8>)
    requires
        rest.len() < 8 || crate::container::be_value(rest.take(8)) > rest.len() - 8,
    ensures
        split_frame(rest) is None,
{
}

proof fn lemma_cut_after_one(a: Seq<u8>, rest: Seq<u8>)
    requires
        a.len() <= u64::MAX,
        split_frame(rest) is None,
    ensures
        parse_container(frame(a) + rest) is None,
{
    lemma_split_frame(a, rest);
}

proof fn lemma_cut_after_two(a: Seq<u8>, b: Seq<u8>, rest: Seq<u8>)
    requires
        a.len() <= u64::MAX,
        b.len() <= u64::MAX,
        split_frame(rest) is None,
    ensures
        parse_container(frame(a) + (frame(b) + rest)) is None,
{
    lemma_split_frame(a, frame(b) + rest);
    lemma_split_frame(b, rest);
}

proof fn lemma_cut_after_three(a: Seq<u8>, b: Seq<u8>, c: Seq<u8>, rest: Seq<u8>)
    requires
        a.len() <= u64::MAX,
        b.len() <= u64::MAX,
        c.len() <= u64::MAX,
        split_frame(rest) is None,
    ensures
        parse_container(frame(a) + (frame(b) + (frame(c) + rest))) is None,
{
    lemma_split_frame(a, frame(b) + (frame(c) + rest));
    lemma_split_frame(b, frame(c) + rest);
    lemma_split_frame(c, rest);
}

/// The bytes of segments written one after the other, each behind its length.
pub open spec fn framed(segments: Seq<Seq<u8>>) -> Seq<u8>
    decreases segments.len(),
{
    if segments.len() == 0 {
        Seq::empty()
    } else {
        frame(segments[0]) + framed(segments.skip(1))
    }
}

} // verus!
