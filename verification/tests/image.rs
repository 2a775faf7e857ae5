use glyph_art::color::ColorImage;
use glyph_art::fixed::UNIT;
use glyph_art::image::{gray_byte, lerp_f32, normalize_f32, Image, LumaImage, LINEAR_LEVELS};

fn luma(width: usize, height: usize, pixels: Vec<i32>) -> LumaImage<i32> {
    LumaImage::from_pixels(width, height, pixels).unwrap()
}

fn units(values: &[i32]) -> Vec<i32> {
    values.iter().map(|v| v * UNIT).collect()
}

#[test]
fn an_image_needs_one_sample_for_each_pixel() {
    assert!(LumaImage::from_pixels(2, 2, vec![1, 2, 3]).is_none());
    assert!(LumaImage::from_pixels(2, 2, vec![1, 2, 3, 4, 5]).is_none());
    assert!(LumaImage::from_pixels(usize::MAX, 2, vec![1, 2]).is_none());
    let img = LumaImage::from_pixels(3, 2, vec![1, 2, 3, 4, 5, 6]).unwrap();
    assert_eq!(img.get_width(), 3);
    assert_eq!(img.get_height(), 2);
    assert_eq!(img.get_dimensions(), (3, 2));
    assert_eq!(img.pixels(), &vec![1, 2, 3, 4, 5, 6]);
    let empty: LumaImage<i32> = LumaImage::from_pixels(0, 5, vec![]).unwrap();
    assert_eq!(empty.get_dimensions(), (0, 5));
}

#[test]
fn pixels_are_stored_row_by_row() {
    let mut img = luma(3, 2, vec![1, 2, 3, 4, 5, 6]);
    assert_eq!(img.get_pixel(0, 0), 1);
    assert_eq!(img.get_pixel(2, 0), 3);
    assert_eq!(img.get_pixel(0, 1), 4);
    assert_eq!(img.get_pixel(2, 1), 6);
    img.set_pixel(1, 1, 50);
    assert_eq!(img.pixels(), &vec![1, 2, 3, 4, 50, 6]);
    img.set_pixel(2, 0, -7);
    assert_eq!(img.get_pixel(2, 0), -7);
    assert_eq!(img.get_pixel(1, 1), 50);
}

#[test]
fn a_clone_holds_the_same_samples() {
    let img = luma(2, 2, vec![9, 8, 7, 6]);
    let mut copy = img.clone();
    assert_eq!(copy.get_dimensions(), (2, 2));
    assert_eq!(copy.pixels(), img.pixels());
    copy.set_pixel(0, 0, 1);
    assert_eq!(img.get_pixel(0, 0), 9);
}

#[test]
fn a_horizontal_pass_leaves_out_the_taps_beyond_the_row() {
    let mut img = luma(3, 2, units(&[1, 2, 3, 4, 5, 6]));
    img.convolve_horizontal(&[UNIT / 4, UNIT / 2, UNIT / 4]);
    assert_eq!(img.pixels(), &vec![65536, 131072, 131072, 212992, 327680, 278528]);
    assert_eq!(img.get_dimensions(), (3, 2));
}

#[test]
fn a_horizontal_pass_reads_the_samples_from_before_the_pass() {
    let mut img = luma(3, 2, units(&[1, 2, 3, 4, 5, 6]));
    img.convolve_horizontal(&[UNIT, UNIT]);
    // offset 0: every sample plus its right neighbour as it was
    assert_eq!(img.pixels(), &vec![196608, 327680, 196608, 589824, 720896, 393216]);
}

#[test]
fn a_kernel_of_even_length_reaches_further_right() {
    let mut img = luma(3, 2, units(&[1, 2, 3, 4, 5, 6]));
    img.convolve_horizontal(&[UNIT, 2 * UNIT, 3 * UNIT, 4 * UNIT]);
    assert_eq!(img.pixels(), &vec![1310720, 917504, 524288, 3080192, 2097152, 1114112]);
}

#[test]
fn a_vertical_pass_leaves_out_the_taps_beyond_the_column() {
    let mut img = luma(3, 2, units(&[1, 2, 3, 4, 5, 6]));
    img.convolve_vertical(&[UNIT / 4, UNIT / 2, UNIT / 4]);
    assert_eq!(img.pixels(), &vec![98304, 147456, 196608, 147456, 196608, 245760]);
    let mut other = luma(3, 2, units(&[1, 2, 3, 4, 5, 6]));
    other.convolve_vertical(&[UNIT, UNIT]);
    assert_eq!(other.pixels(), &vec![327680, 458752, 589824, 262144, 327680, 393216]);
}

#[test]
fn a_pass_rounds_toward_zero_and_an_empty_kernel_blanks() {
    let mut img = luma(3, 1, vec![-3, 5, -7]);
    img.convolve_horizontal(&[UNIT / 2]);
    assert_eq!(img.pixels(), &vec![-1, 2, -3]);
    let mut blank = luma(2, 1, vec![4, 5]);
    blank.convolve_horizontal(&[]);
    assert_eq!(blank.pixels(), &vec![0, 0]);
}

#[test]
fn a_pass_stops_at_the_ends_of_the_range_of_a_sample() {
    let mut img = luma(1, 1, vec![i32::MAX]);
    img.convolve_horizontal(&[2 * UNIT]);
    assert_eq!(img.pixels(), &vec![i32::MAX]);
    let mut low = luma(1, 1, vec![i32::MIN]);
    low.convolve_vertical(&[2 * UNIT]);
    assert_eq!(low.pixels(), &vec![i32::MIN]);
}

#[test]
fn a_two_dimensional_kernel() {
    let img = luma(3, 2, units(&[1, 2, 3, 4, 5, 6]));
    let kernel = vec![vec![UNIT, 2 * UNIT], vec![3 * UNIT, 4 * UNIT]];
    let out = img.convolve_2d(&kernel);
    assert_eq!(out.get_dimensions(), (3, 2));
    assert_eq!(out.pixels(), &vec![2424832, 3080192, 1376256, 917504, 1114112, 393216]);
    assert_eq!(img.pixels(), &units(&[1, 2, 3, 4, 5, 6]));
    let none: Vec<Vec<i32>> = Vec::new();
    assert_eq!(img.convolve_2d(&none).pixels(), &vec![0; 6]);
}

#[test]
fn edges_of_a_single_dot() {
    let img = luma(3, 3, vec![0, 0, 0, 0, UNIT, 0, 0, 0, 0]);
    let edges = img.detect_edges();
    assert_eq!(
        edges.pixels(),
        &vec![0, -65536, 0, -65536, 262144, -65536, 0, -65536, 0]
    );
}

#[test]
fn edges_of_a_flat_image_show_at_its_border_only() {
    let img = luma(3, 3, vec![UNIT; 9]);
    let edges = img.detect_edges();
    assert_eq!(
        edges.pixels(),
        &vec![131072, 65536, 131072, 65536, 0, 65536, 131072, 65536, 131072]
    );
}

#[test]
fn blur_runs_down_the_columns_and_then_along_the_rows() {
    let mut img = luma(3, 3, vec![0, 0, 0, 0, UNIT, 0, 0, 0, 0]);
    img.blur(&[3571, 16004, 26386, 16004, 3571]);
    assert_eq!(
        img.pixels(),
        &vec![3908, 6443, 3908, 6443, 10623, 6443, 3908, 6443, 3908]
    );
}

#[test]
fn resize_blends_the_four_nearest_samples() {
    let img = luma(2, 2, vec![0, UNIT, 2 * UNIT, 3 * UNIT]);
    let big = img.resize(4, 4);
    assert_eq!(big.get_dimensions(), (4, 4));
    assert_eq!(
        big.pixels(),
        &vec![
            0, 32768, 65536, 65536, 65536, 98304, 131072, 131072, 131072, 163840, 196608, 196608,
            131072, 163840, 196608, 196608
        ]
    );
}

#[test]
fn resize_to_the_same_size_changes_nothing() {
    let img = luma(2, 2, vec![5, 6, 7, 8]);
    assert_eq!(img.resize(2, 2).pixels(), &vec![5, 6, 7, 8]);
}

#[test]
fn resize_to_a_smaller_size_and_to_nothing() {
    let img = luma(4, 4, (0..16).collect());
    assert_eq!(img.resize(2, 2).pixels(), &vec![0, 2, 8, 10]);
    let none = img.resize(0, 3);
    assert_eq!(none.get_dimensions(), (0, 3));
    assert!(none.pixels().is_empty());
    let row = luma(3, 1, vec![0, 30000, 60000]);
    assert_eq!(row.resize(5, 1).pixels(), &vec![0, 17999, 35999, 53999, 60000]);
}

#[test]
fn the_grid_has_one_vector_for_each_row() {
    let img = luma(3, 2, vec![1, 2, 3, 4, 5, 6]);
    assert_eq!(img.grid(), vec![vec![1, 2, 3], vec![4, 5, 6]]);
    let flat = luma(0, 2, vec![]);
    assert_eq!(flat.grid(), vec![Vec::<i32>::new(), Vec::<i32>::new()]);
}

#[test]
fn gray_levels() {
    let img = luma(9, 1, vec![-5, 0, 1, 256, 257, 32768, 65535, 65536, 70000]);
    assert_eq!(img.to_luma8(), vec![0, 0, 0, 0, 0, 127, 254, 255, 255]);
    assert_eq!(gray_byte(258), 1);
    assert_eq!(gray_byte(UNIT - 1), 254);
}

#[test]
fn a_kernel_is_scaled_to_add_up_to_the_unit() {
    assert_eq!(normalize_f32(&[1, 2, 1]), Some(vec![16384, 32768, 16384]));
    assert_eq!(normalize_f32(&[1, 1, 1]), Some(vec![21845, 21845, 21845]));
    assert_eq!(normalize_f32(&[3, -1]), Some(vec![98304, -32768]));
    assert_eq!(normalize_f32(&[1, -1]), None);
    assert_eq!(normalize_f32(&[-3, 1]), None);
    assert_eq!(normalize_f32(&[]), None);
}

#[test]
fn linear_interpolation() {
    assert_eq!(lerp_f32(0, UNIT / 2, 10), 5);
    assert_eq!(lerp_f32(10, UNIT / 4, -10), 5);
    assert_eq!(lerp_f32(-7, UNIT, 9), 9);
    assert_eq!(lerp_f32(-7, 0, 9), -7);
    assert_eq!(lerp_f32(5, -UNIT, 6), 4);
    assert_eq!(lerp_f32(0, 1, 3), 0);
    assert_eq!(lerp_f32(i32::MAX, 2 * UNIT, i32::MIN), i32::MIN);
}

#[test]
fn the_table_of_linear_levels() {
    assert_eq!(LINEAR_LEVELS.len(), 256);
    assert_eq!(LINEAR_LEVELS[0], 0);
    assert_eq!(LINEAR_LEVELS[1], 20);
    assert_eq!(LINEAR_LEVELS[10], 199);
    assert_eq!(LINEAR_LEVELS[11], 219);
    assert_eq!(LINEAR_LEVELS[128], 14147);
    assert_eq!(LINEAR_LEVELS[255], 65536);
    for c in 1..256 {
        assert!(LINEAR_LEVELS[c] > LINEAR_LEVELS[c - 1]);
    }
    for c in 0..256usize {
        let x = c as f64 / 255.0;
        let exact = if x <= 0.04045 { x / 12.92 } else { ((x + 0.055) / 1.055).powf(2.4) };
        assert!((LINEAR_LEVELS[c] as f64 - exact * 65536.0).abs() <= 0.5 + 1e-6);
    }
}

#[test]
fn colorimetric_luminance() {
    let img = ColorImage::from_rgba(
        4,
        2,
        vec![
            255, 255, 255, 255, 0, 0, 0, 255, 255, 0, 0, 255, 0, 255, 0, 255, 0, 0, 255, 255, 128,
            128, 128, 255, 255, 255, 255, 128, 10, 200, 90, 77,
        ],
    )
    .unwrap();
    let gray = LumaImage::colorimetric_grayscale_from(&img);
    assert_eq!(gray.get_dimensions(), (4, 2));
    assert_eq!(
        gray.pixels(),
        &vec![65536, 0, 13932, 46871, 4731, 14147, 32896, 8333]
    );
}

#[test]
fn naive_luminance() {
    let img = ColorImage::from_rgba(
        5,
        1,
        vec![
            255, 255, 255, 255, 255, 0, 0, 255, 1, 2, 3, 4, 255, 255, 255, 128, 10, 200, 90, 77,
        ],
    )
    .unwrap();
    let gray = LumaImage::naive_grayscale_from(&img);
    assert_eq!(gray.get_dimensions(), (5, 1));
    assert_eq!(gray.pixels(), &vec![65536, 21845, 8, 32896, 7760]);
}

#[test]
fn a_colour_image_needs_four_bytes_for_each_pixel() {
    assert!(ColorImage::from_rgba(1, 1, vec![1, 2, 3]).is_none());
    assert!(ColorImage::from_rgba(1, 1, vec![1, 2, 3, 4, 5]).is_none());
    assert!(ColorImage::from_rgba(u32::MAX, u32::MAX, vec![]).is_none());
    let img = ColorImage::from_rgba(2, 1, vec![1, 2, 3, 4, 5, 6, 7, 8]).unwrap();
    assert_eq!((img.width(), img.height()), (2, 1));
    let p = img.pixel_at(1);
    assert_eq!((p.r, p.g, p.b, p.a), (5, 6, 7, 8));
    let q = img.pixel_at(0);
    assert_eq!((q.r, q.g, q.b, q.a), (1, 2, 3, 4));
}

#[test]
fn which_sizes_the_resampler_takes() {
    let img = ColorImage::from_rgba(2, 1, vec![1, 2, 3, 4, 5, 6, 7, 8]).unwrap();
    assert!(img.can_resize(1, 1));
    assert!(img.can_resize(0, 0));
    assert!(img.can_resize(100, 100));
    assert!(!img.can_resize(u32::MAX, u32::MAX));
    let empty = ColorImage::from_rgba(0, 3, vec![]).unwrap();
    assert!(!empty.can_resize(1, 1));
}

#[test]
fn nearest_resampling_is_the_outside_crates() {
    let data: Vec<u8> = (0..2 * 3 * 4).map(|v| (v * 10) as u8).collect();
    let img = ColorImage::from_rgba(2, 3, data.clone()).unwrap();
    let out = img.resize_nearest(5, 4);
    assert_eq!((out.width(), out.height()), (5, 4));
    let source = image::RgbaImage::from_raw(2, 3, data).unwrap();
    let expected = image::DynamicImage::ImageRgba8(source)
        .resize_exact(5, 4, image::imageops::FilterType::Nearest)
        .to_rgba8()
        .into_raw();
    assert_eq!(expected.len(), 5 * 4 * 4);
    for i in 0..20 {
        let p = out.pixel_at(i);
        assert_eq!(
            [p.r, p.g, p.b, p.a],
            [expected[4 * i], expected[4 * i + 1], expected[4 * i + 2], expected[4 * i + 3]]
        );
    }
}

#[test]
fn nearest_resampling_picks_source_pixels() {
    let img = ColorImage::from_rgba(1, 1, vec![9, 8, 7, 6]).unwrap();
    let big = img.resize_nearest(2, 2);
    assert_eq!((big.width(), big.height()), (2, 2));
    for i in 0..4 {
        let p = big.pixel_at(i);
        assert_eq!((p.r, p.g, p.b, p.a), (9, 8, 7, 6));
    }
    let four = ColorImage::from_rgba(
        2,
        2,
        vec![1, 1, 1, 255, 2, 2, 2, 255, 3, 3, 3, 255, 4, 4, 4, 255],
    )
    .unwrap();
    let one = four.resize_nearest(1, 1);
    assert_eq!((one.width(), one.height()), (1, 1));
    let p = one.pixel_at(0);
    assert_eq!((p.r, p.g, p.b, p.a), (4, 4, 4, 255));
    let none = four.resize_nearest(0, 0);
    assert_eq!((none.width(), none.height()), (0, 0));
}

#[test]
fn edges_are_four_times_a_sample_less_its_neighbours() {
    let values = vec![7, -3, 12, 0, 5, 9, -8, 4, 1, 2, 6, -1];
    let img = luma(4, 3, values.clone());
    let edges = img.detect_edges();
    let at = |x: i64, y: i64| -> i64 {
        if x < 0 || y < 0 || x >= 4 || y >= 3 {
            0
        } else {
            values[(4 * y + x) as usize] as i64
        }
    };
    for y in 0..3i64 {
        for x in 0..4i64 {
            let expected = 4 * at(x, y) - at(x - 1, y) - at(x + 1, y) - at(x, y - 1) - at(x, y + 1);
            assert_eq!(edges.get_pixel(x as usize, y as usize) as i64, expected);
        }
    }
}
