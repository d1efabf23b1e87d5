use texture_upscale::colour::{get_mean_colour, Rgba};
use texture_upscale::mask::{compare_16x, compare_4x, compare_8x, compare_ssse, apply_circular_mask};
use texture_upscale::pipeline::{
    add_border, circular_filter, get_upscaling_parameters, median_upscale, trim_border, upscale_block,
    upscale_item, UpscaleError, UpscalingParameters,
};
use texture_upscale::raster::{pixel_doubling_upscale, Raster};
use texture_upscale::smooth::median_filter;

const RED: Rgba = Rgba { r: 255, g: 0, b: 0, a: 255 };
const GREEN: Rgba = Rgba { r: 0, g: 255, b: 0, a: 255 };
const BLUE: Rgba = Rgba { r: 0, g: 0, b: 255, a: 255 };
const WHITE: Rgba = Rgba { r: 255, g: 255, b: 255, a: 255 };

fn grey(v: u8) -> Rgba {
    Rgba { r: v, g: v, b: v, a: 255 }
}

fn raster_of(rows: Vec<Vec<Rgba>>) -> Raster {
    let height = rows.len();
    let width = if height > 0 { rows[0].len() } else { 0 };
    Raster { width, height, rows }
}

fn assert_all(img: &Raster, c: Rgba) {
    assert_eq!(img.rows.len(), img.height);
    for row in &img.rows {
        assert_eq!(row.len(), img.width);
        for p in row {
            assert_eq!(*p, c);
        }
    }
}

#[test]
fn replication_makes_solid_blocks() {
    let src = raster_of(vec![vec![RED, GREEN], vec![BLUE, WHITE]]);
    let out = pixel_doubling_upscale(&src, 3);
    assert_eq!((out.width, out.height), (6, 6));
    for y in 0..6 {
        for x in 0..6 {
            assert_eq!(out.get_pixel(x, y), src.get_pixel(x / 3, y / 3));
        }
    }
}

#[test]
fn replication_by_one_is_identity() {
    let src = raster_of(vec![vec![RED, GREEN, BLUE]]);
    let out = pixel_doubling_upscale(&src, 1);
    assert_eq!(out.rows, src.rows);
}

#[test]
fn mean_colour_is_per_channel_median() {
    let colours = vec![
        Rgba { r: 9, g: 0, b: 7, a: 1 },
        Rgba { r: 1, g: 200, b: 7, a: 2 },
        Rgba { r: 5, g: 100, b: 3, a: 3 },
    ];
    let c = get_mean_colour(&colours);
    assert_eq!(c, Rgba { r: 5, g: 100, b: 7, a: 2 });
}

#[test]
fn median_filter_smooths_interior_only() {
    let mut rows = vec![vec![grey(0); 3]; 3];
    rows[0][0] = grey(90);
    rows[1][1] = grey(200);
    rows[2][2] = grey(10);
    let src = raster_of(rows);
    let out = median_filter(&src, 3);
    assert_eq!(out.get_pixel(1, 1), grey(0));
    assert_eq!(out.get_pixel(0, 0), grey(90));
    assert_eq!(out.get_pixel(2, 2), grey(10));
}

#[test]
fn median_filter_picks_middle_value() {
    let values: [u8; 9] = [7, 3, 9, 1, 5, 8, 2, 6, 4];
    let mut rows = Vec::new();
    for y in 0..3 {
        rows.push((0..3).map(|x| grey(values[y * 3 + x])).collect::<Vec<_>>());
    }
    let out = median_filter(&raster_of(rows), 3);
    assert_eq!(out.get_pixel(1, 1), grey(5));
}

#[test]
fn mask_tables_cut_corners() {
    assert!(!compare_4x(0, 0));
    assert!(compare_4x(0, 1));
    assert!(compare_4x(1, 0));
    assert!(!compare_4x(3, 3));
    assert!(!compare_8x(0, 1));
    assert!(compare_8x(0, 2));
    assert!(!compare_8x(1, 0));
    assert!(compare_8x(2, 0));
    assert!(!compare_16x(0, 4));
    assert!(compare_16x(0, 5));
    assert!(compare_16x(0, 10));
    assert!(!compare_16x(0, 11));
    assert!(!compare_16x(4, 0));
    assert!(compare_16x(5, 0));
    assert!(!compare_16x(15, 15));
}

#[test]
fn mask_lookup_validates_scale_and_offsets() {
    assert_eq!(compare_ssse(2, 7, 9), Some(true));
    assert_eq!(compare_ssse(4, 0, 0), Some(false));
    assert_eq!(compare_ssse(4, 1, 1), Some(true));
    assert_eq!(compare_ssse(4, 4, 0), None);
    assert_eq!(compare_ssse(8, -1, 0), None);
    assert_eq!(compare_ssse(16, 2, 2), Some(true));
    assert_eq!(compare_ssse(5, 0, 0), None);
}

#[test]
fn unsupported_scale_is_a_configuration_error() {
    assert_eq!(get_upscaling_parameters(5), Err(UpscaleError::ConfigurationError));
    assert_eq!(get_upscaling_parameters(2), Err(UpscaleError::ConfigurationError));
    assert_eq!(get_upscaling_parameters(0), Err(UpscaleError::ConfigurationError));
}

#[test]
fn supported_scales_pair_with_windows() {
    assert_eq!(get_upscaling_parameters(4), Ok(UpscalingParameters { scale: 4, median: 3 }));
    assert_eq!(get_upscaling_parameters(8), Ok(UpscalingParameters { scale: 8, median: 5 }));
    assert_eq!(get_upscaling_parameters(16), Ok(UpscalingParameters { scale: 16, median: 9 }));
}

#[test]
fn mask_stage_rejects_scale_without_table() {
    let src = raster_of(vec![vec![RED]]);
    let up = pixel_doubling_upscale(&src, 3);
    let params = UpscalingParameters { scale: 3, median: 3 };
    assert_eq!(circular_filter(&src, up, &params).err(), Some(UpscaleError::MaskLookupError));
}

#[test]
fn mask_falls_back_to_source_in_corners() {
    let src = raster_of(vec![vec![RED]]);
    let smoothed = Raster::new(4, 4, BLUE);
    let params = UpscalingParameters { scale: 4, median: 3 };
    let out = circular_filter(&src, smoothed, &params).unwrap();
    assert_eq!(out.get_pixel(0, 0), RED);
    assert_eq!(out.get_pixel(3, 0), RED);
    assert_eq!(out.get_pixel(0, 3), RED);
    assert_eq!(out.get_pixel(3, 3), RED);
    assert_eq!(out.get_pixel(1, 0), BLUE);
    assert_eq!(out.get_pixel(1, 1), BLUE);
    assert_eq!(out.get_pixel(2, 3), BLUE);
}

#[test]
fn mask_is_deterministic() {
    let src = raster_of(vec![vec![RED, GREEN]]);
    let smoothed = Raster::new(16, 8, WHITE);
    let a = apply_circular_mask(&src, &smoothed, 8);
    let b = apply_circular_mask(&src, &smoothed, 8);
    assert_eq!(a.rows, b.rows);
    for y in 0..8 {
        for x in 0..8 {
            assert_eq!(a.get_pixel(x, y) == WHITE, a.get_pixel(x + 8, y) == WHITE);
        }
    }
}

#[test]
fn uniform_item_round_trip() {
    let c = Rgba { r: 12, g: 34, b: 56, a: 78 };
    for scale in [4, 8, 16] {
        let params = get_upscaling_parameters(scale).unwrap();
        let out = upscale_item(&Raster::new(3, 2, c), &params);
        assert_eq!((out.width, out.height), (3 * scale as usize, 2 * scale as usize));
        assert_all(&out, c);
    }
}

#[test]
fn uniform_block_round_trip() {
    let c = Rgba { r: 200, g: 100, b: 50, a: 255 };
    for scale in [4, 8, 16] {
        let params = get_upscaling_parameters(scale).unwrap();
        let out = upscale_block(&Raster::new(2, 3, c), &params);
        assert_eq!((out.width, out.height), (2 * scale as usize, 3 * scale as usize));
        assert_all(&out, c);
    }
}

#[test]
fn border_of_uniform_edges_is_edge_colour() {
    let mut rows = vec![vec![GREEN; 4]; 4];
    rows[1][1] = RED;
    rows[1][2] = BLUE;
    rows[2][1] = WHITE;
    let out = add_border(&raster_of(rows));
    assert_eq!((out.width, out.height), (6, 6));
    for i in 0..6 {
        assert_eq!(out.get_pixel(i, 0), GREEN);
        assert_eq!(out.get_pixel(i, 5), GREEN);
        assert_eq!(out.get_pixel(0, i), GREEN);
        assert_eq!(out.get_pixel(5, i), GREEN);
    }
    assert_eq!(out.get_pixel(2, 2), RED);
    assert_eq!(out.get_pixel(3, 2), BLUE);
}

#[test]
fn border_uses_right_column_of_wide_source() {
    let src = raster_of(vec![
        vec![grey(0), grey(0), grey(0)],
        vec![grey(0), grey(5), grey(9)],
        vec![grey(0), grey(5), grey(9)],
        vec![grey(9), grey(9), grey(9)],
    ]);
    let out = add_border(&src);
    assert_eq!(out.get_pixel(0, 0), grey(9));
}

#[test]
fn block_trim_leaves_source_size_times_scale() {
    let src = raster_of(vec![vec![RED, GREEN, BLUE], vec![WHITE, RED, GREEN]]);
    for scale in [4, 8, 16] {
        let params = get_upscaling_parameters(scale).unwrap();
        let out = upscale_block(&src, &params);
        assert_eq!((out.width, out.height), (3 * scale as usize, 2 * scale as usize));
        assert_eq!(out.rows.len(), out.height);
        assert!(out.rows.iter().all(|r| r.len() == out.width));
    }
}

#[test]
fn trim_takes_window_after_ring() {
    let mut rows = vec![vec![grey(0); 12]; 12];
    rows[4][4] = grey(7);
    rows[11][11] = grey(9);
    let out = trim_border(&raster_of(rows), 1, 1, 4);
    assert_eq!((out.width, out.height), (4, 4));
    assert_eq!(out.get_pixel(0, 0), grey(7));
    assert_eq!(out.get_pixel(3, 3), grey(0));
}

#[test]
fn median_upscale_keeps_uniform_blocks() {
    let params = get_upscaling_parameters(4).unwrap();
    let out = median_upscale(&raster_of(vec![vec![RED, GREEN]]), &params);
    assert_eq!((out.width, out.height), (8, 4));
    assert_eq!(out.get_pixel(1, 1), RED);
    assert_eq!(out.get_pixel(6, 2), GREEN);
}

#[test]
fn item_scenario_two_by_two_at_scale_four() {
    let src = raster_of(vec![vec![RED, GREEN], vec![BLUE, WHITE]]);
    let params = get_upscaling_parameters(4).unwrap();
    let out = upscale_item(&src, &params);
    assert_eq!((out.width, out.height), (8, 8));
    for (qx, qy, c) in [(0, 0, RED), (4, 0, GREEN), (0, 4, BLUE), (4, 4, WHITE)] {
        assert_eq!(out.get_pixel(qx, qy), c);
        assert_eq!(out.get_pixel(qx + 3, qy), c);
        assert_eq!(out.get_pixel(qx, qy + 3), c);
        assert_eq!(out.get_pixel(qx + 3, qy + 3), c);
    }
    assert_eq!(out.get_pixel(1, 1), RED);
    assert_eq!(out.get_pixel(2, 2), RED);
    assert_eq!(out.get_pixel(2, 3), RED);
    assert_eq!(out.get_pixel(5, 5), WHITE);
}

#[test]
fn mask_at_scale_two_keeps_every_smoothed_pixel() {
    let src = raster_of(vec![vec![RED, GREEN]]);
    let smoothed = Raster::new(4, 2, BLUE);
    let params = UpscalingParameters { scale: 2, median: 3 };
    let out = circular_filter(&src, smoothed, &params).unwrap();
    assert_eq!((out.width, out.height), (4, 2));
    assert_all(&out, BLUE);
}

#[test]
fn mask_stage_rejects_non_positive_scale() {
    let src = raster_of(vec![vec![RED]]);
    let smoothed = Raster::new(1, 1, BLUE);
    for scale in [0, -4] {
        let params = UpscalingParameters { scale, median: 3 };
        assert_eq!(circular_filter(&src, raster_of(smoothed.rows.clone()), &params).err(), Some(UpscaleError::MaskLookupError));
    }
}
