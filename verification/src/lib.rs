//! A hybrid lossy/lossless image codec.
//!
//! Pixels are clustered by position and color, the image is cut into square
//! blocks, and every block whose pixels all fall into one cluster is stored as
//! that cluster's mean color. Blocks that mix clusters keep their exact pixels.
use vstd::prelude::*;
use bytes::Bytes;
use crate::container::container;
use crate::decoder::{con_img, container_outcome};
use crate::encoder::{approximation, coded_segments, comp_img, encoding_of, layout_of, plain_segments};
use crate::errors::{DecodeError, EncodeError};
use crate::grid::Tiling;
use crate::loader::{decode_rgb8, image_from_raw, raw_image};
use crate::raster::{fits_memory, Image, PixelMatrix};
use crate::reconstruct::outcome_view;
use crate::wire::{bytes_contents, bytes_to_vec};

pub mod cloud;
pub mod cluster_map;
pub mod container;
pub mod decoder;
pub mod encoder;
pub mod entropy;
pub mod errors;
pub mod flatten;
pub mod grid;
pub mod kmeans;
pub mod laws;
pub mod layout;
pub mod loader;
pub mod palette;
pub mod raster;
pub mod reconstruct;
pub mod residual;
pub mod wire;

verus! {

/// The block size that `compress_image` and `decompress_image` use.
pub const BLOCK_SIZE: usize = 10;

/// The cluster count that `compress_image` uses.
pub const CLUSTER_COUNT: usize = 3;

/// Whether `data` is the container that `compress_image` writes for `img`,
/// and decodes, under the default block size and the image's dimensions,
/// to the image's approximation.
pub open spec fn encodes(img: PixelMatrix, data: Seq<u8>) -> bool {
    &&& data == container(
        coded_segments(plain_segments(encoding_of(img, BLOCK_SIZE as nat, CLUSTER_COUNT as nat))),
    )
    &&& container_outcome(data, layout_of(img, BLOCK_SIZE as nat)) == Ok::<PixelMatrix, DecodeError>(
        approximation(
            img,
            layout_of(img, BLOCK_SIZE as nat),
            encoding_of(img, BLOCK_SIZE as nat, CLUSTER_COUNT as nat).codes,
            encoding_of(img, BLOCK_SIZE as nat, CLUSTER_COUNT as nat).colors,
        ),
    )
}

/// Compresses an image with the default block size and cluster count.
pub fn compress_image(img: &Image) -> (bs: Bytes)
    requires
        img.wf(),
    ensures
        encodes(img@, bytes_contents(bs)),
{
    match comp_img(img, BLOCK_SIZE, CLUSTER_COUNT) {
        Ok(bs) => bs,
        Err(_) => vstd::pervasive::unreached(),
    }
}

/// Whether `img` is the model of an image that can be held: one pixel per
/// coordinate, dimensions of 32 bits, and pixels that fit in memory.
pub open spec fn holdable(img: PixelMatrix) -> bool {
    &&& img.wf()
    &&& img.width <= u32::MAX
    &&& img.height <= u32::MAX
    &&& fits_memory(img.pixels.len())
}

/// Whether `data` is the container that `compress_image` writes for some
/// image.
pub open spec fn is_default_container(data: Seq<u8>) -> bool {
    exists|img: PixelMatrix| holdable(img) && #[trigger] encodes(img, data)
}

/// The container of an image is the container of some image.
pub proof fn lemma_is_default_container(img: PixelMatrix, data: Seq<u8>)
    requires
        holdable(img),
        encodes(img, data),
    ensures
        is_default_container(data),
{
}

/// Compresses the image that raw bytes stand for under given dimensions,
/// with the default block size and cluster count. Refused when the bytes
/// are not three for each of `width * height` pixels.
pub fn compress_raw(width: u32, height: u32, raw: &Vec<u8>) -> (r: Result<Vec<u8>, EncodeError>)
    ensures
        match raw_image(width as nat, height as nat, raw@) {
            None => r == Err::<Vec<u8>, EncodeError>(EncodeError::NotAnImage),
            Some(img) => r is Ok && encodes(img, r->Ok_0@),
        },
{
    match image_from_raw(width, height, raw) {
        None => Err(EncodeError::NotAnImage),
        Some(img) => {
            let bs = compress_image(&img);
            Ok(bytes_to_vec(&bs))
        },
    }
}

/// Compresses the image that the bytes of an image file hold, with the
/// default block size and cluster count. Which image that is, and whether
/// there is one, the image decoder says; whatever it says, a refusal is
/// `NotAnImage`, and a result is the container of an image.
pub fn compress_image_vec(vec: Vec<u8>) -> (r: Result<Vec<u8>, EncodeError>)
    ensures
        r matches Err(e) ==> e == EncodeError::NotAnImage,
        r matches Ok(v) ==> is_default_container(v@),
{
    match decode_rgb8(&vec) {
        Err(_) => Err(EncodeError::NotAnImage),
        Ok((width, height, raw)) => {
            let r = compress_raw(width, height, &raw);
            proof {
                if r is Ok {
                    let img = raw_image(width as nat, height as nat, raw@)->0;
                    lemma_is_default_container(img, r->Ok_0@);
                }
            }
            r
        },
    }
}

/// Decompresses a container that was written with the default block size
/// from an image of the given dimensions.
pub fn decompress_image(bs: &Bytes, width: u32, height: u32) -> (r: Result<Image, DecodeError>)
    ensures
        outcome_view(r) == container_outcome(
            bytes_contents(*bs),
            (Tiling { block: BLOCK_SIZE, width, height })@,
        ),
        r matches Ok(img) ==> img.wf(),
{
    con_img(bs, BLOCK_SIZE, width, height)
}

} // verus!
