//! Reading an encoded image file from memory, as the `image` crate
//! decodes it.
//!
//! Which picture the decoder reads from given bytes is not a matter of the
//! bytes alone: the crate consults format hooks that any part of the
//! process may register. So nothing is claimed of what the decoder hands
//! back; what is done with it is stated for every value that it may be.
use vstd::prelude::*;
use crate::flatten::{create_list, unflat};
use crate::raster::{fits_memory, Image, PixelMatrix};

verus! {

/// `image::ImageError`, the image decoder's reason for not reading an
/// image. Its inside is not looked into.
#[verifier::external_type_specification]
#[verifier::external_body]
pub struct ExImageError(image::ImageError);

/// `image::load_from_memory`, then `DynamicImage::into_rgb8`, then the
/// buffer's `width`, `height` and `into_raw`: the decoded picture as plain
/// values, or the crate's error. Nothing is claimed of either.
#[verifier::external_body]
pub(crate) fn decode_rgb8(data: &Vec<u8>) -> (r: Result<(u32, u32, Vec<u8>), image::ImageError>) {
    let img = image::load_from_memory(data)?.into_rgb8();
    Ok((img.width(), img.height(), img.into_raw()))
}

/// The image that raw bytes stand for under given dimensions: three bytes
/// for each of `width * height` pixels, row by row; `None` when the bytes
/// are not that many, or the pixels do not fit in memory.
pub open spec fn raw_image(width: nat, height: nat, raw: Seq<u8>) -> Option<PixelMatrix> {
    match unflat(raw) {
        None => None,
        Some(pixels) => if pixels.len() == width * height && fits_memory(pixels.len()) {
            Some(PixelMatrix { width, height, pixels })
        } else {
            None
        },
    }
}

/// The model of an optional image.
pub open spec fn image_view(r: Option<Image>) -> Option<PixelMatrix> {
    match r {
        Some(img) => Some(img@),
        None => None,
    }
}

/// Builds an image from its dimensions and the red, green and blue bytes of
/// its pixels, row by row.
pub fn image_from_raw(width: u32, height: u32, raw: &Vec<u8>) -> (r: Option<Image>)
    ensures
        image_view(r) == raw_image(width as nat, height as nat, raw@),
        r matches Some(img) ==> img.wf(),
{
    match create_list(raw) {
        None => None,
        Some(pixels) => Image::new(width, height, pixels),
    }
}

/// Reads an image from the bytes of an image file; `None` where the image
/// decoder reads none, or what it reads is not three bytes per pixel.
pub fn load_image_vec(vec: Vec<u8>) -> (r: Option<Image>)
    ensures
        r matches Some(img) ==> img.wf(),
{
    match decode_rgb8(&vec) {
        Err(_) => None,
        Ok((width, height, raw)) => image_from_raw(width, height, &raw),
    }
}

} // verus!
