use bytes::Bytes;
use image_comp::{compress_image_vec, compress_raw};
use image_comp::container::{read_container, write_container, Parts};
use image_comp::decoder::{con_img, rebuild};
use image_comp::encoder::comp_img;
use image_comp::entropy::comp_data;
use image_comp::errors::{DecodeError, EncodeError, Segment};
use image_comp::grid::{Tiling, MIXED};
use image_comp::loader::{image_from_raw, load_image_vec};
use image_comp::raster::Image;

fn parts(grid: &[u8], table: &[u8], norm: &[u8], abs: &[u8]) -> Parts {
    Parts {
        grid: Bytes::copy_from_slice(grid),
        table: Bytes::copy_from_slice(table),
        norm: Bytes::copy_from_slice(norm),
        abs: Bytes::copy_from_slice(abs),
    }
}

fn coded(grid: &[u8], table: &[u8], norm: &[u8], abs: &[u8]) -> Bytes {
    write_container(Parts {
        grid: comp_data(&Bytes::copy_from_slice(grid)),
        table: Bytes::copy_from_slice(table),
        norm: comp_data(&Bytes::copy_from_slice(norm)),
        abs: comp_data(&Bytes::copy_from_slice(abs)),
    })
}

fn png_bytes(width: u32, height: u32, raw: Vec<u8>) -> Vec<u8> {
    let img = image::RgbImage::from_raw(width, height, raw).unwrap();
    let mut out = std::io::Cursor::new(Vec::new());
    img.write_to(&mut out, image::ImageFormat::Png).unwrap();
    out.into_inner()
}

#[test]
fn container_is_four_segments_behind_big_endian_lengths() {
    let out = write_container(parts(&[1, 2], &[], &[3], &[4, 5, 6]));
    assert_eq!(
        out.to_vec(),
        vec![
            0, 0, 0, 0, 0, 0, 0, 2, 1, 2, 0, 0, 0, 0, 0, 0, 0, 0, 0, 0, 0, 0, 0, 0, 0, 1, 3, 0, 0,
            0, 0, 0, 0, 0, 3, 4, 5, 6
        ]
    );
    let long = write_container(parts(&vec![9u8; 258], &[], &[], &[]));
    assert_eq!(&long[..8], &[0, 0, 0, 0, 0, 0, 1, 2]);
    assert_eq!(long.len(), 8 + 258 + 24);
}

#[test]
fn container_segments_are_read_back() {
    let out = write_container(parts(&[1, 2], &[7, 8, 9], &[3], &[]));
    let back = read_container(&out).unwrap();
    assert_eq!(back.grid, Bytes::from(vec![1u8, 2]));
    assert_eq!(back.table, Bytes::from(vec![7u8, 8, 9]));
    assert_eq!(back.norm, Bytes::from(vec![3u8]));
    assert_eq!(back.abs, Bytes::new());
    let mut longer = out.to_vec();
    longer.extend_from_slice(&[1, 2, 3]);
    let back = read_container(&Bytes::from(longer)).unwrap();
    assert_eq!(back.norm, Bytes::from(vec![3u8]));
    assert_eq!(back.abs, Bytes::new());
}

#[test]
fn length_prefix_beyond_the_buffer_is_malformed() {
    let good = write_container(parts(&[1, 2], &[7, 8, 9], &[3], &[4])).to_vec();
    for cut in 0..good.len() {
        assert!(read_container(&Bytes::copy_from_slice(&good[..cut])).is_none());
    }
    let mut bad = good.clone();
    bad[7] = 200;
    assert!(read_container(&Bytes::from(bad.clone())).is_none());
    assert_eq!(con_img(&Bytes::from(bad), 10, 1, 1), Err(DecodeError::Malformed));
    let mut huge = good.clone();
    huge[0] = 0xff;
    assert_eq!(con_img(&Bytes::from(huge), 10, 1, 1), Err(DecodeError::Malformed));
    assert_eq!(con_img(&Bytes::new(), 10, 1, 1), Err(DecodeError::Malformed));
    assert_eq!(con_img(&Bytes::from(vec![0u8; 31]), 10, 1, 1), Err(DecodeError::Malformed));
}

#[test]
fn every_decode_error_has_an_input() {
    let table = [10u8, 20, 30, 40, 50, 60];
    let good = coded(&[1], &table, &[], &[]);
    assert_eq!(con_img(&good, 4, 3, 2).unwrap(), Image::new(3, 2, vec![[40u8, 50, 60]; 6]).unwrap());
    assert_eq!(con_img(&good, 0, 3, 2), Err(DecodeError::Config));
    assert_eq!(con_img(&good, usize::MAX, u32::MAX, u32::MAX), Err(DecodeError::TooLarge));
    assert_eq!(con_img(&good, 2, 3, 2), Err(DecodeError::GridSize));
    assert_eq!(con_img(&good, 4, 5, 2), Err(DecodeError::GridSize));
    let junk = [0xffu8, 0xff, 0xff, 0xff];
    let plain = |b: &[u8]| comp_data(&Bytes::copy_from_slice(b));
    let with = |grid: Bytes, norm: Bytes, abs: Bytes| {
        write_container(Parts { grid, table: Bytes::copy_from_slice(&table), norm, abs })
    };
    let j = Bytes::copy_from_slice(&junk);
    assert_eq!(
        con_img(&with(j.clone(), j.clone(), j.clone()), 4, 3, 2),
        Err(DecodeError::Entropy(Segment::Grid))
    );
    assert_eq!(
        con_img(&with(plain(&[1]), j.clone(), j.clone()), 4, 3, 2),
        Err(DecodeError::Entropy(Segment::Norm))
    );
    assert_eq!(
        con_img(&with(plain(&[1]), plain(&[]), j.clone()), 4, 3, 2),
        Err(DecodeError::Entropy(Segment::Abs))
    );
    assert_eq!(con_img(&coded(&[1], &[1, 2, 3, 4], &[], &[]), 4, 3, 2), Err(DecodeError::ColorTable));
    assert_eq!(con_img(&coded(&[2], &table, &[], &[]), 4, 3, 2), Err(DecodeError::UnknownCluster));
    assert_eq!(con_img(&coded(&[1], &table, &[1], &[]), 4, 3, 2), Err(DecodeError::ResidualLength));
    assert_eq!(
        con_img(&coded(&[1], &table, &[1, 2, 3], &[1, 2, 3]), 4, 3, 2),
        Err(DecodeError::ResidualLength)
    );
    assert_eq!(
        con_img(&coded(&[MIXED], &table, &[128; 15], &[7; 18]), 4, 3, 2),
        Err(DecodeError::ResidualLength)
    );
}

#[test]
fn rebuild_reads_segments_after_entropy_decoding() {
    let tiling = Tiling { block: 1, width: 2, height: 1 };
    let got = rebuild(&parts(&[0, MIXED], &[10, 20, 30], &[129, 127, 128], &[1, 2, 3]), tiling);
    assert_eq!(got.unwrap().pixels, vec![[10u8, 20, 30], [11, 19, 30]]);
    let got = rebuild(&parts(&[0, MIXED], &[10, 20, 30], &[255, 0, 128], &[4, 5, 6]), tiling);
    assert_eq!(got.unwrap().pixels, vec![[10u8, 20, 30], [4, 5, 30]]);
    assert_eq!(
        rebuild(&parts(&[0, MIXED], &[10, 20, 30], &[129, 127, 128, 255, 0, 128], &[1, 2, 3, 4, 5, 6]), tiling),
        Err(DecodeError::ResidualLength)
    );
    assert_eq!(
        rebuild(&parts(&[0], &[10, 20, 30], &[], &[]), tiling),
        Err(DecodeError::GridSize)
    );
    assert_eq!(
        rebuild(&parts(&[0], &[10, 20, 30], &[], &[]), Tiling { block: 0, width: 1, height: 1 }),
        Err(DecodeError::Config)
    );
}

#[test]
fn image_files_are_read_from_memory() {
    let raw: Vec<u8> = (0..2 * 3 * 3).map(|i| (i * 13) as u8).collect();
    let file = png_bytes(2, 3, raw.clone());
    assert_ne!(file, raw);
    let img = load_image_vec(file.clone()).unwrap();
    assert_eq!(img.dim(), [2, 3]);
    assert_eq!(img.pixels[0], [0, 13, 26]);
    assert_eq!(img.pixels[5], [195, 208, 221]);
    assert!(load_image_vec(raw).is_none());
    assert!(load_image_vec(Vec::new()).is_none());
}

#[test]
fn compress_image_vec_encodes_the_decoded_file() {
    let mut raw = Vec::new();
    for i in 0..24 * 20u32 {
        let x = i % 24;
        raw.extend_from_slice(if x < 12 { &[250u8, 10, 10] } else { &[10u8, 10, 250] });
    }
    let file = png_bytes(24, 20, raw);
    let img = load_image_vec(file.clone()).unwrap();
    let out = compress_image_vec(file).unwrap();
    assert_eq!(out, comp_img(&img, 10, 3).unwrap().to_vec());
    assert!(con_img(&Bytes::from(out), 10, 24, 20).is_ok());
    assert_eq!(compress_image_vec(vec![1, 2, 3, 4]), Err(EncodeError::NotAnImage));
}

#[test]
fn raw_bytes_become_an_image_only_with_three_bytes_per_pixel() {
    let raw: Vec<u8> = (0..18u8).collect();
    let img = image_from_raw(3, 2, &raw).unwrap();
    assert_eq!(img.dim(), [3, 2]);
    assert_eq!(img.pixels[0], [0, 1, 2]);
    assert_eq!(img.get_pixel(2, 1), [15, 16, 17]);
    assert_eq!(image_from_raw(2, 3, &raw).unwrap().get_pixel(1, 2), [15, 16, 17]);
    assert!(image_from_raw(3, 3, &raw).is_none());
    assert!(image_from_raw(2, 2, &raw).is_none());
    assert!(image_from_raw(3, 2, &raw[..17].to_vec()).is_none());
    assert!(image_from_raw(0, 0, &Vec::new()).is_some());
}

#[test]
fn compress_raw_encodes_the_image_of_the_raw_bytes() {
    let mut raw = Vec::new();
    for i in 0..24 * 20u32 {
        raw.extend_from_slice(if i % 24 < 12 { &[250u8, 10, 10] } else { &[10u8, 10, 250] });
    }
    let img = image_from_raw(24, 20, &raw).unwrap();
    let out = compress_raw(24, 20, &raw).unwrap();
    assert_eq!(out, comp_img(&img, 10, 3).unwrap().to_vec());
    assert_eq!(out, compress_image_vec(png_bytes(24, 20, raw.clone())).unwrap());
    assert!(con_img(&Bytes::from(out), 10, 24, 20).is_ok());
    assert_eq!(compress_raw(24, 21, &raw), Err(EncodeError::NotAnImage));
    assert_eq!(compress_raw(1, 1, &vec![1, 2]), Err(EncodeError::NotAnImage));
}
