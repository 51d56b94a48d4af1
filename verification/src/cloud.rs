//! The point cloud of an image: one five-dimensional point per pixel,
//! holding the pixel's position and color.
use vstd::prelude::*;
use crate::raster::{lemma_row_major_index, Image, PixelMatrix};

verus! {

/// The point of the pixel stored at index `i`: column, row, red, green, blue.
pub open spec fn point_of(img: PixelMatrix, i: int) -> [u32; 5] {
    [
        (i % (img.width as int)) as u32,
        (i / (img.width as int)) as u32,
        img.pixels[i][0] as u32,
        img.pixels[i][1] as u32,
        img.pixels[i][2] as u32,
    ]
}

/// The points of all pixels, row by row.
pub open spec fn point_cloud(img: PixelMatrix) -> Seq<[u32; 5]> {
    Seq::new(img.pixels.len(), |i: int| point_of(img, i))
}

/// Whether `points` are laid out as the pixels of a `width` by `height`
/// image are: one point per pixel, row by row, each holding its own
/// position and channel values within a byte.
pub open spec fn is_cloud_of(points: Seq<[u32; 5]>, width: nat, height: nat) -> bool {
    &&& points.len() == width * height
    &&& forall|i: int|
        0 <= i < points.len() ==> {
            &&& (#[trigger] points[i])[0] == i % (width as int)
            &&& points[i][1] == i / (width as int)
            &&& points[i][2] <= 255
            &&& points[i][3] <= 255
            &&& points[i][4] <= 255
        }
}

/// The point cloud of an image is laid out as the image is.
pub proof fn lemma_point_cloud_layout(img: PixelMatrix)
    requires
        img.wf(),
        img.width <= u32::MAX,
        img.height <= u32::MAX,
    ensures
        is_cloud_of(point_cloud(img), img.width, img.height),
{
    let points = point_cloud(img);
    assert forall|i: int| 0 <= i < points.len() implies {
        &&& (#[trigger] points[i])[0] == i % (img.width as int)
        &&& points[i][1] == i / (img.width as int)
        &&& points[i][2] <= 255
        &&& points[i][3] <= 255
        &&& points[i][4] <= 255
    } by {
        let w = img.width as int;
        crate::raster::lemma_index_position(w, img.height as int, i);
    }
}

/// The raw points of an image: for every pixel, row by row, its column,
/// row, red, green and blue value.
pub fn gen_point_cloud(img: &Image) -> (points: Vec<[u32; 5]>)
    requires
        img.wf(),
    ensures
        points@ == point_cloud(img@),
        is_cloud_of(points@, img.width as nat, img.height as nat),
{
    let ghost model = img@;
    let total = img.pixels.len();
    let mut points: Vec<[u32; 5]> = Vec::new();
    let mut y: u32 = 0;
    while y < img.height
        invariant
            img.wf(),
            model == img@,
            total == img.pixels@.len(),
            y <= img.height,
            points@.len() == y * img.width,
            forall|i: int| 0 <= i < points@.len() ==> points@[i] == point_of(model, i),
        decreases img.height - y,
    {
        let mut x: u32 = 0;
        while x < img.width
            invariant
                img.wf(),
                model == img@,
                total == img.pixels@.len(),
                y < img.height,
                x <= img.width,
                points@.len() == y * img.width + x,
                forall|i: int| 0 <= i < points@.len() ==> points@[i] == point_of(model, i),
            decreases img.width - x,
        {
            proof {
                lemma_row_major_index(img.width as int, img.height as int, x as int, y as int);
            }
            let c = img.get_pixel(x, y);
            points.push([x, y, c[0] as u32, c[1] as u32, c[2] as u32]);
            x += 1;
        }
        proof {
            assert(y * img.width + img.width == (y + 1) * img.width) by (nonlinear_arith);
        }
        y += 1;
    }
    proof {
        assert(points@.len() == model.pixels.len()) by (nonlinear_arith)
            requires
                points@.len() == img.height * img.width,
                model.pixels.len() == model.width * model.height,
                model.width == img.width,
                model.height == img.height,
        ;
        assert(points@ =~= point_cloud(model));
        lemma_point_cloud_layout(model);
    }
    points
}

/// The feature points of an image, on which distances are measured. The
/// feature space is the space of the raw points itself, with all five
/// dimensions weighted alike.
pub fn gen_euclid_cloud(img: &Image) -> (points: Vec<[u32; 5]>)
    requires
        img.wf(),
    ensures
        points@ == point_cloud(img@),
        is_cloud_of(points@, img.width as nat, img.height as nat),
{
    gen_point_cloud(img)
}

} // verus!
