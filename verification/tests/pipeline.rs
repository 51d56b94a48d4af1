use bytes::Bytes;
use image_comp::cloud::{gen_euclid_cloud, gen_point_cloud};
use image_comp::cluster_map::calc_cluster_map;
use image_comp::decoder::con_img;
use image_comp::encoder::comp_img;
use image_comp::entropy::{comp_data, dec_comp_data};
use image_comp::errors::EncodeError;
use image_comp::flatten::{
    bytes_list, create_list, flatten_list, list_f_bytes, signed_bytes_list, signed_list_f_bytes,
};
use image_comp::grid::{calc_grid, from_list, Grid, MIXED};
use image_comp::kmeans::kmeans_clustering;
use image_comp::palette::{calc_cluster_colors, create_cluster_colors, flatten_cc};
use image_comp::raster::Image;
use image_comp::reconstruct::decode;
use image_comp::residual::{calc_data_lists, ResidualLists};
use image_comp::{compress_image, decompress_image};

/// A picture with flat areas, a gradient and a speckled stripe.
fn sample_image(width: u32, height: u32) -> Image {
    let mut pixels = Vec::new();
    let mut seed: u32 = 12345;
    for y in 0..height {
        for x in 0..width {
            let c = if x < width / 3 {
                [200u8, 30, 30]
            } else if y < height / 2 {
                [20, (x * 255 / width) as u8, 220]
            } else if x > 2 * width / 3 {
                seed = seed.wrapping_mul(1103515245).wrapping_add(12345);
                [(seed >> 16) as u8, (seed >> 8) as u8, 90]
            } else {
                [240, 240, 235]
            };
            pixels.push(c);
        }
    }
    Image::new(width, height, pixels).unwrap()
}

fn stages(img: &Image, b_size: usize, k: usize) -> (Grid, Vec<[u8; 3]>, ResidualLists) {
    let cloud = gen_euclid_cloud(img);
    let cluster = kmeans_clustering(&cloud, k);
    let points = gen_point_cloud(img);
    let cluster_map = calc_cluster_map(&cluster, &points, img.dim());
    let grid = calc_grid(&cluster_map, b_size);
    let cluster_colors = calc_cluster_colors(&cluster, &points);
    let lists = calc_data_lists(img, &grid, &cluster_colors);
    (grid, cluster_colors, lists)
}

#[test]
fn clustering_test_no_loss() {
    let img = sample_image(60, 45);
    let pixel_count = img.dim()[0] as usize * img.dim()[1] as usize;
    let cloud = gen_euclid_cloud(&img);
    let cluster = kmeans_clustering(&cloud, 3);
    let mut size: usize = 0;
    for c in cluster.iter() {
        size += c.len();
    }
    assert_eq!(size, pixel_count);
}

#[test]
fn lists_test() {
    let img = sample_image(60, 45);
    let (_, _, lists) = stages(&img, 10, 3);
    let norm_f = flatten_list(&lists.norm);
    let abs_f = flatten_list(&lists.abs);
    let norm_r = create_list(&norm_f).unwrap();
    let abs_r = create_list(&abs_f).unwrap();
    let res_lists = ResidualLists { norm: norm_r, abs: abs_r };
    assert_eq!(lists, res_lists);
}

#[test]
fn deflate_test() {
    let img = sample_image(60, 45);
    let (grid, cluster_colors, lists) = stages(&img, 100, 3);
    let norm_f = flatten_list(&lists.norm);
    let bytes_n = signed_bytes_list(&norm_f);
    let comp_n = comp_data(&bytes_n);
    let decomp_n = dec_comp_data(&comp_n).unwrap();
    let abs_f = flatten_list(&lists.abs);
    let bytes_a = bytes_list(&abs_f);
    let comp_a = comp_data(&bytes_a);
    let decomp_a = dec_comp_data(&comp_a).unwrap();
    let decomp_n_l = signed_list_f_bytes(&decomp_n);
    let decomp_a_l = list_f_bytes(&decomp_a);
    let norm_r = create_list(&decomp_n_l).unwrap();
    let abs_r = create_list(&decomp_a_l).unwrap();
    let res_lists = ResidualLists { norm: norm_r, abs: abs_r };
    println!("Uncompressed Size: {}", bytes_n.len() + bytes_a.len());
    println!("Compressed size:   {}", comp_n.len() + comp_a.len());
    let res_img = decode(&res_lists.norm, &res_lists.abs, &grid, &cluster_colors).unwrap();
    assert_eq!(res_img.dim(), img.dim());
    assert_eq!(lists, res_lists);
}

#[test]
fn deflate_grid() {
    let img = sample_image(60, 45);
    let (grid, _, _) = stages(&img, 10, 3);
    let g_list = grid.to_list();
    let g_b_list = bytes_list(&g_list);
    let comp_gb_list = comp_data(&g_b_list);
    println!("Uncompressed size: {}", g_b_list.len());
    println!("Compressed size:   {}", comp_gb_list.len());
    let dec_comp_gb_list = dec_comp_data(&comp_gb_list).unwrap();
    let dec_g_list = list_f_bytes(&dec_comp_gb_list);
    let grid_n = from_list(&dec_g_list, grid.tiling).unwrap();
    assert_eq!(grid, grid_n);
}

#[test]
fn flatten_cluster_colors() {
    let img = sample_image(48, 36);
    let cloud = gen_euclid_cloud(&img);
    let cluster = kmeans_clustering(&cloud, 15);
    let points = gen_point_cloud(&img);
    let cluster_colors = calc_cluster_colors(&cluster, &points);
    let flat_cc = flatten_cc(&cluster_colors);
    let cc_b = bytes_list(&flat_cc);
    let comp_cc_b = comp_data(&cc_b);
    println!("Uncompressed Size: {}", cc_b.len());
    println!("Compressed Size:   {}", comp_cc_b.len());
    let ret_cc = create_cluster_colors(&flat_cc).unwrap();
    assert_eq!(cluster_colors.len(), 15);
    assert_eq!(cluster_colors, ret_cc);
}

#[test]
fn single_color_image_is_one_uniform_code_and_decodes_exactly() {
    let img = Image::new(100, 100, vec![[17u8, 99, 203]; 10000]).unwrap();
    let (grid, colors, lists) = stages(&img, 10, 1);
    assert_eq!(grid.codes, vec![0u8; 100]);
    assert_eq!(colors, vec![[17u8, 99, 203]]);
    assert!(lists.norm.is_empty());
    assert!(lists.abs.is_empty());
    let bs = comp_img(&img, 10, 1).unwrap();
    let back = con_img(&bs, 10, 100, 100).unwrap();
    assert_eq!(back, img);
}

#[test]
fn checkerboard_is_all_mixed_and_decodes_exactly() {
    let mut pixels = Vec::new();
    for y in 0..30u32 {
        for x in 0..30u32 {
            pixels.push(if (x / 3 + y / 3) % 2 == 0 { [0u8, 0, 0] } else { [255u8, 255, 255] });
        }
    }
    let img = Image::new(30, 30, pixels).unwrap();
    let (grid, _, lists) = stages(&img, 10, 2);
    assert_eq!(grid.codes, vec![MIXED; 9]);
    assert_eq!(lists.norm.len(), 900);
    assert_eq!(lists.abs.len(), 900);
    let bs = comp_img(&img, 10, 2).unwrap();
    let back = con_img(&bs, 10, 30, 30).unwrap();
    assert_eq!(back, img);
}

#[test]
fn round_trip_is_exact_in_mixed_blocks_and_mean_colored_in_uniform_ones() {
    let img = sample_image(47, 33);
    let (grid, colors, _) = stages(&img, 10, 3);
    let bs = comp_img(&img, 10, 3).unwrap();
    let back = con_img(&bs, 10, 47, 33).unwrap();
    assert_eq!(back.dim(), [47, 33]);
    let mut mixed = 0;
    let mut uniform = 0;
    for y in 0..33u32 {
        for x in 0..47u32 {
            let code = grid.codes[((y / 10) * 5 + x / 10) as usize];
            if code == MIXED {
                mixed += 1;
                assert_eq!(back.get_pixel(x, y), img.get_pixel(x, y));
            } else {
                uniform += 1;
                assert_eq!(back.get_pixel(x, y), colors[code as usize]);
            }
        }
    }
    assert!(mixed > 0);
    assert!(uniform > 0);
}

#[test]
fn default_parameters_are_block_size_10_and_3_clusters() {
    let img = sample_image(25, 25);
    let bs = compress_image(&img);
    assert_eq!(bs, comp_img(&img, 10, 3).unwrap());
    assert_eq!(decompress_image(&bs, 25, 25), con_img(&bs, 10, 25, 25));
    assert!(decompress_image(&bs, 25, 25).is_ok());
}

#[test]
fn configuration_errors_are_rejected() {
    let img = sample_image(12, 12);
    assert_eq!(comp_img(&img, 0, 3), Err(EncodeError::Config));
    assert_eq!(comp_img(&img, 10, 0), Err(EncodeError::Config));
    assert_eq!(comp_img(&img, 10, 16), Err(EncodeError::Config));
    assert_eq!(comp_img(&img, 10, 17), Err(EncodeError::Config));
    assert!(comp_img(&img, 10, 15).is_ok());
    assert!(comp_img(&img, 1, 1).is_ok());
}

#[test]
fn empty_image_round_trips() {
    let img = Image::new(0, 0, Vec::new()).unwrap();
    let bs = comp_img(&img, 10, 3).unwrap();
    let back = con_img(&bs, 10, 0, 0).unwrap();
    assert_eq!(back, img);
    let wide = Image::new(5, 0, Vec::new()).unwrap();
    let bs = comp_img(&wide, 4, 2).unwrap();
    assert_eq!(con_img(&bs, 4, 5, 0).unwrap(), wide);
}

#[test]
fn fewer_pixels_than_clusters() {
    let img = Image::new(2, 1, vec![[1u8, 2, 3], [250, 251, 252]]).unwrap();
    let cloud = gen_euclid_cloud(&img);
    let cluster = kmeans_clustering(&cloud, 3);
    assert_eq!(cluster, vec![vec![0usize], vec![1], vec![]]);
    let points = gen_point_cloud(&img);
    let colors = calc_cluster_colors(&cluster, &points);
    assert_eq!(colors, vec![[1u8, 2, 3], [250, 251, 252], [0, 0, 0]]);
    let bs = comp_img(&img, 10, 3).unwrap();
    assert_eq!(con_img(&bs, 10, 2, 1).unwrap(), img);
}

#[test]
fn compressed_bytes_are_not_the_plain_bytes() {
    let plain = Bytes::from(vec![7u8; 4000]);
    let coded = comp_data(&plain);
    assert!(coded.len() < 100);
    assert_ne!(coded, plain);
    assert_eq!(dec_comp_data(&coded).unwrap(), plain);
    assert!(dec_comp_data(&Bytes::from(vec![0xffu8, 0xff, 0xff, 0xff])).is_none());
}
