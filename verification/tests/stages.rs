use bytes::Bytes;
use image_comp::cloud::{gen_euclid_cloud, gen_point_cloud};
use image_comp::cluster_map::calc_cluster_map;
use image_comp::errors::DecodeError;
use image_comp::flatten::{
    bytes_list, create_list, flatten_list, list_f_bytes, signed_bytes_list, signed_list_f_bytes,
};
use image_comp::grid::{calc_grid, classify_block, from_list, intervals, ClusterMap, Grid, Rect, Tiling, MIXED};
use image_comp::kmeans::{
    assign_points, clusters_from_labels, distance, kmeans_clustering, label_points,
    nearest_centroid, sample_centroids, update_centroids,
};
use image_comp::palette::{calc_cluster_colors, create_cluster_colors, flatten_cc};
use image_comp::raster::Image;
use image_comp::reconstruct::{channel_restore, codes_known, color_restore, count_mixed, decode};
use image_comp::residual::{calc_data_lists, channel_delta, color_delta, reference_of};

fn two_tone(width: u32, height: u32) -> Image {
    let mut pixels = Vec::new();
    for _y in 0..height {
        for x in 0..width {
            pixels.push(if x < width / 2 { [10u8, 20, 30] } else { [200u8, 210, 220] });
        }
    }
    Image::new(width, height, pixels).unwrap()
}

#[test]
fn image_needs_one_pixel_per_coordinate() {
    assert!(Image::new(2, 2, vec![[0u8; 3]; 3]).is_none());
    assert!(Image::new(2, 2, vec![[0u8; 3]; 5]).is_none());
    let img = Image::new(3, 2, vec![[1u8, 1, 1], [2, 2, 2], [3, 3, 3], [4, 4, 4], [5, 5, 5], [6, 6, 6]])
        .unwrap();
    assert_eq!(img.dim(), [3, 2]);
    assert_eq!(img.index_of(2, 1), 5);
    assert_eq!(img.get_pixel(0, 1), [4, 4, 4]);
    assert_eq!(img.get_pixel(2, 0), [3, 3, 3]);
}

#[test]
fn point_cloud_is_row_major() {
    let img = Image::new(2, 2, vec![[1u8, 2, 3], [4, 5, 6], [7, 8, 9], [10, 11, 12]]).unwrap();
    let points = gen_point_cloud(&img);
    assert_eq!(
        points,
        vec![[0u32, 0, 1, 2, 3], [1, 0, 4, 5, 6], [0, 1, 7, 8, 9], [1, 1, 10, 11, 12]]
    );
    assert_eq!(gen_euclid_cloud(&img), points);
}

#[test]
fn distance_is_the_squared_euclidean_distance() {
    assert_eq!(distance(&[0, 0, 0, 0, 0], &[1, 2, 3, 4, 5]), 55);
    assert_eq!(distance(&[1, 2, 3, 4, 5], &[0, 0, 0, 0, 0]), 55);
    assert_eq!(distance(&[7, 7, 7, 7, 7], &[7, 7, 7, 7, 7]), 0);
    assert_eq!(
        distance(&[u32::MAX, u32::MAX, u32::MAX, u32::MAX, u32::MAX], &[0, 0, 0, 0, 0]),
        5 * (u32::MAX as u128) * (u32::MAX as u128)
    );
}

#[test]
fn nearest_centroid_prefers_the_lower_number_on_ties() {
    let cs = vec![[0u32, 0, 0, 0, 0], [10, 0, 0, 0, 0], [10, 0, 0, 0, 0]];
    assert_eq!(nearest_centroid(&[5, 0, 0, 0, 0], &cs), 0);
    assert_eq!(nearest_centroid(&[6, 0, 0, 0, 0], &cs), 1);
    assert_eq!(nearest_centroid(&[4, 0, 0, 0, 0], &cs), 0);
    assert_eq!(assign_points(&vec![[9u32, 0, 0, 0, 0], [1, 0, 0, 0, 0]], &cs), vec![1usize, 0]);
}

#[test]
fn starting_centroids_are_spread_out() {
    let points = vec![[0u32, 0, 0, 0, 0], [1, 0, 0, 0, 0], [9, 0, 0, 0, 0], [5, 0, 0, 0, 0]];
    assert_eq!(sample_centroids(&points, 1), vec![[0u32, 0, 0, 0, 0]]);
    assert_eq!(sample_centroids(&points, 2), vec![[0u32, 0, 0, 0, 0], [9, 0, 0, 0, 0]]);
    assert_eq!(
        sample_centroids(&points, 3),
        vec![[0u32, 0, 0, 0, 0], [9, 0, 0, 0, 0], [5, 0, 0, 0, 0]]
    );
}

#[test]
fn centroids_move_to_truncated_means_and_empty_ones_are_reseeded() {
    let points = vec![[0u32, 0, 0, 0, 0], [3, 0, 0, 0, 9], [10, 5, 0, 0, 0], [20, 0, 0, 0, 0]];
    let labels = vec![0usize, 0, 0, 2];
    let cs = vec![[0u32, 0, 0, 0, 0], [100, 100, 100, 100, 100], [20, 0, 0, 0, 0]];
    let moved = update_centroids(&points, &labels, &cs);
    assert_eq!(moved, vec![[4u32, 1, 0, 0, 3], [10, 5, 0, 0, 0], [20, 0, 0, 0, 0]]);
}

#[test]
fn kmeans_separates_two_groups() {
    let points = vec![
        [0u32, 0, 10, 10, 10],
        [1, 0, 12, 10, 10],
        [2, 0, 240, 240, 240],
        [3, 0, 11, 10, 10],
        [4, 0, 250, 240, 240],
    ];
    assert_eq!(label_points(&points, 2), vec![0usize, 0, 1, 0, 1]);
    let clusters = kmeans_clustering(&points, 2);
    assert_eq!(clusters, vec![vec![0usize, 1, 3], vec![2, 4]]);
    assert_eq!(clusters_from_labels(&vec![1usize, 0, 1], 3), vec![vec![1usize], vec![0, 2], vec![]]);
    assert_eq!(kmeans_clustering(&points, 0), Vec::<Vec<usize>>::new());
    assert_eq!(kmeans_clustering(&Vec::new(), 2), vec![Vec::<usize>::new(), Vec::new()]);
}

#[test]
fn clusters_are_disjoint_and_cover_all_points() {
    let img = two_tone(9, 7);
    let cloud = gen_euclid_cloud(&img);
    for k in 1..6 {
        let clusters = kmeans_clustering(&cloud, k);
        assert_eq!(clusters.len(), k);
        let mut seen = vec![0u32; 63];
        for c in clusters.iter() {
            for &i in c.iter() {
                seen[i] += 1;
            }
        }
        assert_eq!(seen, vec![1u32; 63]);
    }
}

#[test]
fn cluster_map_scatters_ids_to_positions() {
    let img = two_tone(4, 2);
    let points = gen_point_cloud(&img);
    let clusters = vec![vec![0usize, 1, 4, 5], vec![2, 3, 6, 7]];
    let map = calc_cluster_map(&clusters, &points, img.dim());
    assert_eq!(map.shape(), [4, 2]);
    assert_eq!(map.ids, vec![0usize, 0, 1, 1, 0, 0, 1, 1]);
    assert_eq!(map.get(1, 1), 0);
    assert_eq!(map.get(2, 0), 1);
}

#[test]
fn block_counts_and_extents_are_clipped_at_the_edges() {
    assert_eq!(intervals(0, 10), 0);
    assert_eq!(intervals(1, 10), 1);
    assert_eq!(intervals(10, 10), 1);
    assert_eq!(intervals(11, 10), 2);
    assert_eq!(intervals(u32::MAX, 1), u32::MAX);
    let tiling = Tiling { block: 10, width: 25, height: 31 };
    assert_eq!(tiling.blocks_x(), 3);
    assert_eq!(tiling.blocks_y(), 4);
    assert_eq!(tiling.block_count(), 12);
    assert_eq!(tiling.rect(0, 0), Rect { x0: 0, y0: 0, w: 10, h: 10 });
    assert_eq!(tiling.rect(2, 3), Rect { x0: 20, y0: 30, w: 5, h: 1 });
    assert_eq!(tiling.rect_of(11), Rect { x0: 20, y0: 30, w: 5, h: 1 });
    assert_eq!(tiling.rect_of(4), Rect { x0: 10, y0: 10, w: 10, h: 10 });
    let huge = Tiling { block: usize::MAX, width: 25, height: 31 };
    assert_eq!(huge.rect(0, 0), Rect { x0: 0, y0: 0, w: 25, h: 31 });
}

#[test]
fn grid_marks_uniform_and_mixed_blocks() {
    let map = ClusterMap { width: 5, height: 3, ids: vec![
        0, 0, 1, 1, 2,
        0, 0, 1, 0, 2,
        3, 3, 3, 3, 2,
    ] };
    let grid = calc_grid(&map, 2);
    assert_eq!(grid.tiling, Tiling { block: 2, width: 5, height: 3 });
    assert_eq!(grid.codes, vec![0u8, MIXED, 2, 3, 3, 2]);
    assert_eq!(grid.image_dim(), [5, 3]);
    assert_eq!(classify_block(&map, &grid.tiling, 1), MIXED);
    assert_eq!(classify_block(&map, &grid.tiling, 5), 2);
    assert_eq!(MIXED, 16);
}

#[test]
fn grid_round_trips_through_its_code_list() {
    let map = ClusterMap { width: 3, height: 3, ids: vec![0, 1, 1, 0, 1, 1, 2, 2, 2] };
    let grid = calc_grid(&map, 2);
    let list = grid.to_list();
    assert_eq!(list, vec![MIXED, 1, 2, 2]);
    assert_eq!(from_list(&list, grid.tiling), Some(grid.clone()));
    assert_eq!(from_list(&list, Tiling { block: 0, width: 3, height: 3 }), None);
    assert_eq!(from_list(&list, Tiling { block: 2, width: 5, height: 3 }), None);
    assert_eq!(from_list(&vec![1u8, 2, 3], grid.tiling), None);
}

#[test]
fn cluster_colors_are_truncated_means() {
    let points = vec![[0u32, 0, 10, 0, 255], [1, 0, 11, 1, 255], [2, 0, 13, 1, 254], [3, 0, 7, 7, 7]];
    let clusters = vec![vec![0usize, 1, 2], vec![], vec![3]];
    let colors = calc_cluster_colors(&clusters, &points);
    assert_eq!(colors, vec![[11u8, 0, 254], [0, 0, 0], [7, 7, 7]]);
    assert_eq!(flatten_cc(&colors), vec![11u8, 0, 254, 0, 0, 0, 7, 7, 7]);
    assert_eq!(create_cluster_colors(&flatten_cc(&colors)), Some(colors));
    assert_eq!(create_cluster_colors(&vec![1u8, 2, 3, 4]), None);
    assert_eq!(create_cluster_colors(&Vec::new()), Some(Vec::new()));
}

#[test]
fn deltas_saturate_and_restore_falls_back_to_the_exact_value() {
    assert_eq!(channel_delta(100, 90), 10);
    assert_eq!(channel_delta(90, 100), -10);
    assert_eq!(channel_delta(255, 0), 127);
    assert_eq!(channel_delta(0, 255), -128);
    assert_eq!(channel_delta(127, 0), 127);
    assert_eq!(channel_delta(128, 0), 127);
    assert_eq!(channel_delta(0, 128), -128);
    assert_eq!(channel_delta(0, 127), -127);
    assert_eq!(color_delta(&[255, 5, 0], &[0, 5, 200]), [127, 0, -128]);
    assert_eq!(channel_restore(10, 77, 90), 100);
    assert_eq!(channel_restore(-10, 77, 100), 90);
    assert_eq!(channel_restore(127, 200, 0), 200);
    assert_eq!(channel_restore(-128, 3, 255), 3);
    assert_eq!(channel_restore(126, 77, 200), 77);
    assert_eq!(channel_restore(-100, 77, 50), 77);
    assert_eq!(channel_restore(126, 77, 129), 255);
    assert_eq!(color_restore(&[127, 0, -128], &[255, 9, 0], &[0, 5, 200]), [255, 5, 0]);
    for v in 0..=255u8 {
        for r in [0u8, 1, 100, 127, 128, 200, 255] {
            assert_eq!(channel_restore(channel_delta(v, r), v, r), v);
        }
    }
    assert_eq!(reference_of(&vec![[4u8, 5, 6], [7, 8, 9]]), [4, 5, 6]);
    assert_eq!(reference_of(&Vec::new()), [0, 0, 0]);
}

#[test]
fn residual_lists_follow_block_order_then_row_order() {
    let pixels: Vec<[u8; 3]> = (0..12u8).map(|i| [i, 100 + i, 200]).collect();
    let img = Image::new(4, 3, pixels).unwrap();
    let grid = Grid { tiling: Tiling { block: 2, width: 4, height: 3 }, codes: vec![MIXED, 0, 0, MIXED] };
    let colors = vec![[5u8, 100, 40]];
    let lists = calc_data_lists(&img, &grid, &colors);
    assert_eq!(
        lists.abs,
        vec![[0u8, 100, 200], [1, 101, 200], [4, 104, 200], [5, 105, 200], [10, 110, 200], [11, 111, 200]]
    );
    assert_eq!(
        lists.norm,
        vec![[-5i8, 0, 127], [-4, 1, 127], [-1, 4, 127], [0, 5, 127], [5, 10, 127], [6, 11, 127]]
    );
    assert_eq!(count_mixed(&grid, 6), Some(6));
    assert_eq!(count_mixed(&grid, 100), Some(6));
    assert_eq!(count_mixed(&grid, 5), None);
    let back = decode(&lists.norm, &lists.abs, &grid, &colors).unwrap();
    let mut want = img.clone();
    for (x, y) in [(2usize, 0usize), (3, 0), (2, 1), (3, 1), (0, 2), (1, 2)] {
        want.pixels[y * 4 + x] = [5, 100, 40];
    }
    assert_eq!(back, want);
}

#[test]
fn decode_applies_deltas_inside_the_range() {
    let grid = Grid { tiling: Tiling { block: 1, width: 2, height: 1 }, codes: vec![MIXED, MIXED] };
    let colors = vec![[100u8, 100, 100]];
    let norm = vec![[1i8, -1, 0], [127, -128, 126]];
    let abs = vec![[9u8, 9, 9], [250, 3, 7]];
    let img = decode(&norm, &abs, &grid, &colors).unwrap();
    assert_eq!(img.pixels, vec![[101u8, 99, 100], [250, 3, 226]]);
}

#[test]
fn decode_reports_structural_errors() {
    let grid = Grid { tiling: Tiling { block: 2, width: 4, height: 2 }, codes: vec![1, MIXED] };
    let colors = vec![[1u8, 1, 1], [2, 2, 2]];
    let entry_n = [0i8, 0, 0];
    let entry_a = [9u8, 9, 9];
    assert!(codes_known(&grid.codes, &colors));
    assert!(!codes_known(&grid.codes, &vec![[1u8, 1, 1]]));
    assert!(decode(&vec![entry_n; 4], &vec![entry_a; 4], &grid, &colors).is_ok());
    assert_eq!(
        decode(&vec![entry_n; 4], &vec![entry_a; 4], &grid, &vec![[1u8, 1, 1]]),
        Err(DecodeError::UnknownCluster)
    );
    assert_eq!(
        decode(&vec![entry_n; 3], &vec![entry_a; 4], &grid, &colors),
        Err(DecodeError::ResidualLength)
    );
    assert_eq!(
        decode(&vec![entry_n; 4], &vec![entry_a; 5], &grid, &colors),
        Err(DecodeError::ResidualLength)
    );
    assert_eq!(
        decode(&vec![entry_n; 5], &vec![entry_a; 5], &grid, &colors),
        Err(DecodeError::ResidualLength)
    );
    let vast = Grid {
        tiling: Tiling { block: usize::MAX, width: u32::MAX, height: u32::MAX },
        codes: vec![0],
    };
    assert_eq!(decode(&Vec::new(), &Vec::new(), &vast, &colors), Err(DecodeError::TooLarge));
    let coded_17 = Grid { tiling: grid.tiling, codes: vec![17, MIXED] };
    assert_eq!(
        decode(&vec![entry_n; 4], &vec![entry_a; 4], &coded_17, &colors),
        Err(DecodeError::UnknownCluster)
    );
}

#[test]
fn flatten_and_bytes_round_trip() {
    let list = vec![[1u8, 2, 3], [4, 5, 6], [255, 0, 128]];
    let flat = flatten_list(&list);
    assert_eq!(flat, vec![1u8, 2, 3, 4, 5, 6, 255, 0, 128]);
    assert_eq!(create_list(&list_f_bytes(&bytes_list(&flat))), Some(list));
    let deltas = vec![[-128i8, -1, 0], [1, 127, 5]];
    let flat = flatten_list(&deltas);
    assert_eq!(flat, vec![-128i8, -1, 0, 1, 127, 5]);
    let bytes = signed_bytes_list(&flat);
    assert_eq!(bytes, Bytes::from(vec![0u8, 127, 128, 129, 255, 133]));
    assert_eq!(create_list(&signed_list_f_bytes(&bytes)), Some(deltas));
    assert_eq!(create_list(&vec![1u8, 2]), None);
    assert_eq!(create_list(&Vec::<i8>::new()), Some(Vec::new()));
}
