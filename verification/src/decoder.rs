//! Decoding a container: framing, entropy decoding, reshaping, and
//! reconstruction, each with its own way to fail.
use vstd::prelude::*;
use bytes::Bytes;
use crate::container::{parse_container, read_container, Parts, Segments};
use crate::entropy::{dec_comp_data, inflated};
use crate::errors::{DecodeError, Segment};
use crate::flatten::{create_list, list_f_bytes, signed_list_f_bytes, unbiased, unflat};
use crate::grid::{from_list, Tiling};
use crate::layout::Layout;
use crate::palette::create_cluster_colors;
use crate::raster::{Image, PixelMatrix};
use crate::reconstruct::{decode, decode_outcome, outcome_view};
use crate::wire::bytes_contents;

verus! {

/// What the four segments, after entropy decoding, rebuild under a layout:
/// the image, or the first of the reasons against it.
pub open spec fn rebuild_outcome(parts: Segments, lay: Layout) -> Result<PixelMatrix, DecodeError> {
    if !lay.wf() {
        Err(DecodeError::Config)
    } else if parts.grid.len() != lay.block_count() {
        Err(DecodeError::GridSize)
    } else if unflat(parts.table) is None {
        Err(DecodeError::ColorTable)
    } else if unflat(parts.norm) is None || unflat(parts.abs) is None {
        Err(DecodeError::ResidualLength)
    } else {
        decode_outcome(
            unflat(unbiased(parts.norm))->0,
            unflat(parts.abs)->0,
            lay,
            parts.grid,
            unflat(parts.table)->0,
        )
    }
}

/// What the bytes of a container decode to under a layout: the image, or
/// the first of the reasons against it.
pub open spec fn container_outcome(data: Seq<u8>, lay: Layout) -> Result<PixelMatrix, DecodeError> {
    if !lay.wf() {
        Err(DecodeError::Config)
    } else {
        match parse_container(data) {
            None => Err(DecodeError::Malformed),
            Some(parts) => match inflated(parts.grid) {
                None => Err(DecodeError::Entropy(Segment::Grid)),
                Some(grid) => match inflated(parts.norm) {
                    None => Err(DecodeError::Entropy(Segment::Norm)),
                    Some(norm) => match inflated(parts.abs) {
                        None => Err(DecodeError::Entropy(Segment::Abs)),
                        Some(abs) => rebuild_outcome(
                            Segments { grid, table: parts.table, norm, abs },
                            lay,
                        ),
                    },
                },
            },
        }
    }
}

/// Rebuilds the image from the four segments as they are after entropy
/// decoding: block codes, color table, biased deltas and exact colors.
pub fn rebuild(parts: &Parts, tiling: Tiling) -> (r: Result<Image, DecodeError>)
    ensures
        outcome_view(r) == rebuild_outcome(parts@, tiling@),
        r matches Ok(img) ==> img.wf(),
{
    let codes = list_f_bytes(&parts.grid);
    let grid = match from_list(&codes, tiling) {
        Some(grid) => grid,
        None => {
            if tiling.block == 0 {
                return Err(DecodeError::Config);
            }
            return Err(DecodeError::GridSize);
        },
    };
    let table = list_f_bytes(&parts.table);
    let colors = match create_cluster_colors(&table) {
        Some(colors) => colors,
        None => {
            return Err(DecodeError::ColorTable);
        },
    };
    let deltas = signed_list_f_bytes(&parts.norm);
    let exact = list_f_bytes(&parts.abs);
    assert(unflat(unbiased(parts@.norm)) is None <==> unflat(parts@.norm) is None);
    let norm = match create_list(&deltas) {
        Some(norm) => norm,
        None => {
            return Err(DecodeError::ResidualLength);
        },
    };
    let abs = match create_list(&exact) {
        Some(abs) => abs,
        None => {
            return Err(DecodeError::ResidualLength);
        },
    };
    decode(&norm, &abs, &grid, &colors)
}

/// Decodes a container into an image. Block size and image dimensions are
/// not part of the container: the caller hands in those that the container
/// was written with.
pub fn con_img(bs: &Bytes, b_size: usize, width: u32, height: u32) -> (r: Result<
    Image,
    DecodeError,
>)
    ensures
        outcome_view(r) == container_outcome(
            bytes_contents(*bs),
            (Tiling { block: b_size, width, height })@,
        ),
        r matches Ok(img) ==> img.wf(),
{
    let tiling = Tiling { block: b_size, width, height };
    if b_size == 0 {
        return Err(DecodeError::Config);
    }
    let parts = match read_container(bs) {
        Some(parts) => parts,
        None => {
            return Err(DecodeError::Malformed);
        },
    };
    let Parts { grid, table, norm, abs } = parts;
    let grid = match dec_comp_data(&grid) {
        Some(data) => data,
        None => {
            return Err(DecodeError::Entropy(Segment::Grid));
        },
    };
    let norm = match dec_comp_data(&norm) {
        Some(data) => data,
        None => {
            return Err(DecodeError::Entropy(Segment::Norm));
        },
    };
    let abs = match dec_comp_data(&abs) {
        Some(data) => data,
        None => {
            return Err(DecodeError::Entropy(Segment::Abs));
        },
    };
    rebuild(&Parts { grid, table, norm, abs }, tiling)
}

} // verus!
