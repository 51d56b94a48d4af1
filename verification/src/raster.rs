//! The pixel matrix: an image held as plain values.
use vstd::prelude::*;

verus! {

/// The mathematical model of an image: its dimensions and its pixels in
/// row-major order, each pixel a red, green and blue byte.
pub struct PixelMatrix {
    pub width: nat,
    pub height: nat,
    pub pixels: Seq<[u8; 3]>,
}

impl PixelMatrix {
    /// There is exactly one pixel per coordinate.
    pub open spec fn wf(self) -> bool {
        self.pixels.len() == self.width * self.height
    }

    pub open spec fn in_bounds(self, x: int, y: int) -> bool {
        0 <= x < self.width && 0 <= y < self.height
    }

    /// The color at column `x` of row `y`.
    pub open spec fn pixel(self, x: int, y: int) -> [u8; 3] {
        self.pixels[y * self.width + x]
    }
}

/// Row `y`, column `x` of a `width`-wide matrix lies inside its row-major storage.
pub proof fn lemma_row_major_index(width: int, height: int, x: int, y: int)
    requires
        0 <= x < width,
        0 <= y < height,
    ensures
        0 <= y * width + x < width * height,
        (y * width + x) % width == x,
        (y * width + x) / width == y,
{
    assert(y * width + x < width * height) by (nonlinear_arith)
        requires
            0 <= x < width,
            0 <= y < height,
    {
        assert((y + 1) * width <= height * width);
    }
    assert(0 <= y * width) by (nonlinear_arith)
        requires
            0 <= y,
            0 < width,
    ;
    vstd::arithmetic::div_mod::lemma_fundamental_div_mod_converse(y * width + x, width, y, x);
}

/// A storage index of a `width`-wide matrix names a column and a row.
pub proof fn lemma_index_position(width: int, height: int, i: int)
    requires
        0 <= width,
        0 <= i < width * height,
    ensures
        0 <= i % width < width,
        0 <= i / width < height,
        (i / width) * width + i % width == i,
{
    assert(width > 0) by (nonlinear_arith)
        requires
            0 <= i < width * height,
            width >= 0,
    ;
    vstd::arithmetic::div_mod::lemma_fundamental_div_mod(i, width);
    vstd::arithmetic::div_mod::lemma_mod_bound(i, width);
    vstd::arithmetic::div_mod::lemma_div_pos_is_pos(i, width);
    assert(i / width < height) by (nonlinear_arith)
        requires
            0 <= i < width * height,
            width > 0,
            i == width * (i / width) + i % width,
            0 <= i % width,
    ;
    assert((i / width) * width == width * (i / width)) by (nonlinear_arith);
}

/// The product of two 32-bit dimensions fits in 64 bits.
pub proof fn lemma_product_fits(a: int, b: int)
    requires
        0 <= a <= u32::MAX,
        0 <= b <= u32::MAX,
    ensures
        0 <= a * b <= 0xFFFF_FFFE_0000_0001,
{
    assert(0 <= a * b <= 0xFFFF_FFFE_0000_0001) by (nonlinear_arith)
        requires
            0 <= a <= 0xFFFF_FFFF,
            0 <= b <= 0xFFFF_FFFF,
    ;
}

/// Whether the three bytes of each of `n` pixels fit in one allocation,
/// which holds `isize::MAX` bytes at most.
pub open spec fn fits_memory(n: nat) -> bool {
    3 * n <= isize::MAX
}

/// An image with eight-bit red, green and blue channels.
#[derive(Clone, Debug, PartialEq, Eq)]
pub struct Image {
    pub width: u32,
    pub height: u32,
    /// One entry per pixel, row by row from the top-left corner.
    pub pixels: Vec<[u8; 3]>,
}

impl View for Image {
    type V = PixelMatrix;

    open spec fn view(&self) -> PixelMatrix {
        PixelMatrix { width: self.width as nat, height: self.height as nat, pixels: self.pixels@ }
    }
}

impl Image {
    /// There is one pixel per coordinate, and the pixels fit in memory.
    pub open spec fn wf(&self) -> bool {
        self@.wf() && fits_memory(self.pixels@.len())
    }

    /// Builds an image from its pixels in row-major order; `None` when their
    /// number is not `width * height`, or exceeds what fits in memory.
    pub fn new(width: u32, height: u32, pixels: Vec<[u8; 3]>) -> (r: Option<Image>)
        ensures
            r is Some <==> pixels@.len() == width * height && fits_memory(pixels@.len()),
            r matches Some(img) ==> img.wf() && img.width == width && img.height == height
                && img.pixels@ == pixels@,
    {
        proof {
            lemma_product_fits(width as int, height as int);
        }
        let expected: u64 = (width as u64) * (height as u64);
        if pixels.len() as u64 == expected && pixels.len() <= (isize::MAX as usize) / 3 {
            Some(Image { width, height, pixels })
        } else {
            None
        }
    }

    /// Width and height, in this order.
    pub fn dim(&self) -> (d: [u32; 2])
        ensures
            d[0] == self.width,
            d[1] == self.height,
    {
        [self.width, self.height]
    }

    /// The storage index of the pixel at column `x` of row `y`.
    pub fn index_of(&self, x: u32, y: u32) -> (i: usize)
        requires
            self.wf(),
            x < self.width,
            y < self.height,
        ensures
            i == y * self.width + x,
            i < self.pixels@.len(),
    {
        let n = self.pixels.len();
        proof {
            lemma_row_major_index(self.width as int, self.height as int, x as int, y as int);
            assert(0 <= (y as int) * (self.width as int)) by (nonlinear_arith)
                requires
                    0 <= y,
                    0 <= self.width,
            ;
            assert((y as int) * (self.width as int) + x < n);
        }
        (y as usize) * (self.width as usize) + (x as usize)
    }

    /// The color at column `x` of row `y`.
    pub fn get_pixel(&self, x: u32, y: u32) -> (c: [u8; 3])
        requires
            self.wf(),
            x < self.width,
            y < self.height,
        ensures
            c == self@.pixel(x as int, y as int),
    {
        let i = self.index_of(x, y);
        self.pixels[i]
    }
}

} // verus!
