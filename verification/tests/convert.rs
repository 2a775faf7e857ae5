use glyph_art::convert::{
    assemble, augmented_pixels, base_pixels, chars_to_rows, chunks_per_worker, clear_convert,
    color_convert, convert_chunk, convert_image, convert_slice, direction_and_intensity_convert,
    direction_convert, dispatch, dot_convert, edge_pixels, find_conversion_algorithm,
    find_converter, get_conversion_algorithm, get_converter, img_to_char_rows,
    img_to_char_rows_with, intensity_convert, jaccard_convert, merge_passes, occlusion_convert,
    pixels_to_chars, pixels_to_chars_with, pixels_to_chunks, plan_layout, round_up_to_multiple,
    score_convert, ConversionAlgorithm, ConvertError, Converter, Layout,
};
use glyph_art::fixed::UNIT;
use glyph_art::font::{Character, Font};
use glyph_art::image::LumaImage;
use glyph_art::metrics::Metric;
use glyph_art::noise::NoiseSource;

const U: i32 = UNIT;

fn glyph(value: char, bits: &[i32]) -> Character {
    Character::new(value, bits.iter().map(|b| b * U).collect(), 2, 2)
}

fn five() -> Font {
    let glyphs = vec![
        glyph(' ', &[0, 0, 0, 0]),
        glyph('.', &[0, 0, 1, 0]),
        glyph('|', &[1, 0, 1, 0]),
        glyph('-', &[1, 1, 0, 0]),
        glyph('#', &[1, 1, 1, 1]),
    ];
    Font::new(&glyphs, &[' ', '.', '|', '-', '#']).unwrap()
}

fn four() -> Font {
    let glyphs = vec![
        glyph(' ', &[0, 0, 0, 0]),
        glyph('|', &[1, 0, 1, 0]),
        glyph('-', &[1, 1, 0, 0]),
        glyph('#', &[1, 1, 1, 1]),
    ];
    Font::new(&glyphs, &[' ', '|', '-', '#']).unwrap()
}

fn named() -> Vec<(&'static str, Vec<i32>)> {
    vec![
        ("bright", vec![U, U, U, U]),
        ("dark", vec![0, 0, 0, 0]),
        ("left", vec![U, 0, U, 0]),
        ("top", vec![U, U, 0, 0]),
        ("dim", vec![U / 2, U / 2, U / 2, U / 2]),
        ("odd", vec![U, 0, 0, U / 2]),
        ("neg", vec![-U, 0, 0, 0]),
        ("over", vec![3 * U, 3 * U, 3 * U, 3 * U]),
    ]
}

fn picks(convert: fn(&Font, &[i32]) -> Result<char, ConvertError>) -> Vec<Result<char, ConvertError>> {
    let font = five();
    named().iter().map(|(_, chunk)| convert(&font, chunk)).collect()
}

fn all_ok(text: &str) -> Vec<Result<char, ConvertError>> {
    text.chars().map(Ok).collect()
}

fn rows(lines: &[&str]) -> Vec<Vec<char>> {
    lines.iter().map(|l| l.chars().collect()).collect()
}

fn box_image() -> LumaImage<i32> {
    let bits = [
        0, 0, 0, 0, 0, 0, 0, 1, 1, 1, 1, 0, 0, 1, 0, 0, 1, 0, 0, 1, 0, 0, 1, 0, 0, 1, 1, 1, 1, 0,
        0, 0, 0, 0, 0, 0,
    ];
    LumaImage::from_pixels(6, 6, bits.iter().map(|b| b * U).collect()).unwrap()
}

fn stripes() -> LumaImage<i32> {
    let mut pixels = Vec::new();
    for level in [U, 0, U, 0, U / 2, U, 0, 0] {
        pixels.extend(std::iter::repeat(level).take(8));
    }
    LumaImage::from_pixels(8, 8, pixels).unwrap()
}

#[test]
fn converters_by_name() {
    assert_eq!(get_converter("dot"), Converter::Score(Metric::Dot));
    assert_eq!(get_converter("jaccard"), Converter::Score(Metric::Jaccard));
    assert_eq!(get_converter("occlusion"), Converter::Score(Metric::Occlusion));
    assert_eq!(get_converter("color"), Converter::Score(Metric::AvgColor));
    assert_eq!(get_converter("clear"), Converter::Score(Metric::TowardClear));
    assert_eq!(get_converter("fast"), Converter::Intensity);
    assert_eq!(get_converter("intensity"), Converter::Intensity);
    assert_eq!(get_converter("grad"), Converter::DirectionAndIntensity);
    assert_eq!(get_converter("direction-and-intensity"), Converter::DirectionAndIntensity);
    assert_eq!(get_converter("direction"), Converter::Direction);
    assert_eq!(find_converter("direction"), Some(Converter::Direction));
    assert_eq!(find_converter("Dot"), None);
    assert_eq!(find_converter(""), None);
    assert_eq!(find_converter("intensity-jaccard"), None);
}

#[test]
fn algorithms_by_name() {
    assert_eq!(get_conversion_algorithm("base"), ConversionAlgorithm::Base);
    assert_eq!(get_conversion_algorithm("edge"), ConversionAlgorithm::Edge);
    assert_eq!(get_conversion_algorithm("edge-augmented"), ConversionAlgorithm::EdgeAugmented);
    assert_eq!(get_conversion_algorithm("two-pass"), ConversionAlgorithm::TwoPass);
    assert_eq!(find_conversion_algorithm("two-pass"), Some(ConversionAlgorithm::TwoPass));
    assert_eq!(find_conversion_algorithm("twopass"), None);
    assert_eq!(find_conversion_algorithm("edge "), None);
}

#[test]
fn the_best_dot_product() {
    assert_eq!(picks(dot_convert), all_ok("######.#"));
}

#[test]
fn the_best_overlap() {
    let expected = vec![
        Ok('#'),
        Err(ConvertError::UndefinedScore),
        Ok('|'),
        Ok('-'),
        Ok('#'),
        Ok('-'),
        Err(ConvertError::UndefinedScore),
        Ok('#'),
    ];
    assert_eq!(picks(jaccard_convert), expected);
}

#[test]
fn the_best_occlusion() {
    assert_eq!(picks(occlusion_convert), all_ok("# ---- #"));
}

#[test]
fn the_best_colour_score() {
    assert_eq!(picks(color_convert), all_ok("      - "));
}

#[test]
fn the_best_movement_toward_clear() {
    assert_eq!(picks(clear_convert), all_ok(" # . .# "));
}

#[test]
fn the_glyph_of_the_brightness() {
    assert_eq!(picks(intensity_convert), all_ok("# |||. #"));
}

#[test]
fn the_nearest_direction() {
    assert_eq!(picks(direction_convert), all_ok("...-.-|."));
}

#[test]
fn the_best_of_direction_and_brightness() {
    assert_eq!(picks(direction_and_intensity_convert), all_ok("# ---- #"));
}

#[test]
fn a_metric_as_a_converter() {
    let font = five();
    let odd = vec![U, 0, 0, U / 2];
    assert_eq!(score_convert(Metric::Dot, &font, &odd), Ok('#'));
    assert_eq!(score_convert(Metric::Jaccard, &font, &odd), Ok('-'));
    assert_eq!(score_convert(Metric::Occlusion, &font, &odd), Ok('-'));
    assert_eq!(score_convert(Metric::AvgColor, &font, &odd), Ok(' '));
    assert_eq!(score_convert(Metric::TowardClear, &font, &odd), Ok('.'));
}

#[test]
fn among_equal_scores_the_last_glyph_wins() {
    let font = five();
    // every glyph scores 0 against a dark chunk
    assert_eq!(dot_convert(&font, &[0, 0, 0, 0]), Ok('#'));
    // ' ' and '.' both face nowhere
    assert_eq!(direction_convert(&font, &[U, U, U, U]), Ok('.'));
    assert_eq!(direction_convert(&four(), &[U, U, U, U]), Ok(' '));
}

#[test]
fn a_chunk_of_the_wrong_size() {
    let font = five();
    for convert in [
        Converter::Score(Metric::Dot),
        Converter::Intensity,
        Converter::Direction,
        Converter::DirectionAndIntensity,
    ] {
        assert_eq!(
            convert_chunk(convert, &font, &[U, U, U], &NoiseSource::silent(), 0),
            Err(ConvertError::MalformedChunk)
        );
        assert_eq!(
            convert_chunk(convert, &font, &[U, U, U, U, U], &NoiseSource::silent(), 0),
            Err(ConvertError::MalformedChunk)
        );
        assert_eq!(
            convert_chunk(convert, &font, &[], &NoiseSource::silent(), 0),
            Err(ConvertError::MalformedChunk)
        );
    }
}

#[test]
fn offsets_can_change_the_winner() {
    let font = five();
    let odd = vec![U, 0, 0, U / 2];
    let noise = NoiseSource::new(9, 100000);
    let found: Vec<char> = (0..6)
        .map(|i| convert_chunk(Converter::Score(Metric::Occlusion), &font, &odd, &noise, i).unwrap())
        .collect();
    assert_eq!(found, vec!['-', '-', '|', '|', '.', '.']);
    let again: Vec<char> = (0..6)
        .map(|i| convert_chunk(Converter::Score(Metric::Occlusion), &font, &odd, &noise, i).unwrap())
        .collect();
    assert_eq!(found, again);
}

#[test]
fn chunks_of_a_picture_that_is_no_multiple() {
    let pixels: Vec<i32> = (0..15).collect();
    let chunks = pixels_to_chunks(&pixels, 5, 3, 2, 2);
    assert_eq!(chunks.len(), (3 / 2) * (5 / 2));
    assert_eq!(chunks, vec![vec![0, 1, 5, 6], vec![2, 3, 7, 8]]);
    let square: Vec<i32> = (0..25).collect();
    let four = pixels_to_chunks(&square, 5, 5, 2, 2);
    assert_eq!(
        four,
        vec![vec![0, 1, 5, 6], vec![2, 3, 7, 8], vec![10, 11, 15, 16], vec![12, 13, 17, 18]]
    );
    let mut used: Vec<i32> = four.iter().flatten().cloned().collect();
    used.sort();
    used.dedup();
    assert_eq!(used.len(), 16);
    assert!(used.iter().all(|p| p % 5 < 4 && p / 5 < 4));
}

#[test]
fn chunks_of_other_shapes() {
    let pixels: Vec<i32> = (0..8).collect();
    assert_eq!(pixels_to_chunks(&pixels, 4, 2, 3, 1), vec![vec![0, 1, 2], vec![4, 5, 6]]);
    assert_eq!(pixels_to_chunks(&pixels, 4, 2, 4, 2), vec![(0..8).collect::<Vec<i32>>()]);
    assert!(pixels_to_chunks(&pixels, 4, 2, 5, 1).is_empty());
    assert!(pixels_to_chunks(&pixels, 4, 2, 1, 3).is_empty());
    assert!(pixels_to_chunks(&pixels, 4, 2, usize::MAX, usize::MAX).is_empty());
    assert!(pixels_to_chunks(&[], 0, 0, 2, 2).is_empty());
    let ones = pixels_to_chunks(&pixels, 4, 2, 1, 1);
    assert_eq!(ones.len(), 8);
    assert_eq!(ones[5], vec![5]);
}

#[test]
fn how_many_chunks_a_worker_takes() {
    let sizes: Vec<usize> = [0, 1, 2, 3, 4, 7, 8, 100].iter().map(|c| chunks_per_worker(7, *c)).collect();
    assert_eq!(sizes, vec![7, 7, 4, 3, 2, 1, 1, 1]);
    assert_eq!(chunks_per_worker(0, 3), 0);
    assert_eq!(chunks_per_worker(usize::MAX, usize::MAX), 1);
    assert_eq!(chunks_per_worker(usize::MAX, 1), usize::MAX);
}

fn seven_chunks() -> Vec<Vec<i32>> {
    vec![
        vec![U, U, U, U],
        vec![0, 0, 0, 0],
        vec![U, 0, U, 0],
        vec![U, U, 0, 0],
        vec![U / 2; 4],
        vec![U, 0, 0, U / 2],
        vec![0, 0, U, 0],
    ]
}

#[test]
fn without_offsets_the_number_of_workers_does_not_matter() {
    let font = five();
    let chunks = seven_chunks();
    let silent = NoiseSource::silent();
    let one = dispatch(&chunks, &font, Converter::Score(Metric::Occlusion), 1, &silent).unwrap();
    assert_eq!(one, vec!['#', ' ', '-', '-', '-', '-', '.']);
    for workers in [0usize, 2, 3, 4, 7, 100] {
        let many = dispatch(&chunks, &font, Converter::Score(Metric::Occlusion), workers, &silent);
        assert_eq!(many, Ok(one.clone()));
    }
    let seeded = NoiseSource::new(1234, 0);
    for workers in [1usize, 3] {
        for convert in [Converter::Intensity, Converter::Direction, Converter::DirectionAndIntensity] {
            assert_eq!(
                dispatch(&chunks, &font, convert, workers, &seeded),
                dispatch(&chunks, &font, convert, 1, &silent)
            );
        }
    }
}

#[test]
fn with_offsets_every_worker_draws_from_its_own_source() {
    let font = five();
    let chunks = seven_chunks();
    let noise = NoiseSource::new(5, 200000);
    let occlusion = Converter::Score(Metric::Occlusion);
    assert_eq!(
        dispatch(&chunks, &font, occlusion, 1, &noise),
        Ok(vec!['#', ' ', '|', '|', '|', '.', '.'])
    );
    assert_eq!(
        dispatch(&chunks, &font, occlusion, 2, &noise),
        Ok(vec!['#', ' ', '|', '|', '|', '.', '-'])
    );
    assert_eq!(
        dispatch(&chunks, &font, occlusion, 3, &noise),
        Ok(vec!['#', ' ', '|', '|', '|', '-', '.'])
    );
    let wide = NoiseSource::new(77, 1 << 33);
    let dot = Converter::Score(Metric::Dot);
    assert_eq!(dispatch(&chunks, &font, dot, 1, &wide), Ok(vec!['#', '.', '#', '#', '#', '#', '|']));
    assert_eq!(dispatch(&chunks, &font, dot, 2, &wide), Ok(vec!['#', '.', '#', '#', '#', '-', '#']));
    assert_eq!(dispatch(&chunks, &font, dot, 3, &wide), Ok(vec!['#', '.', '#', '-', '#', '#', '|']));
    assert_eq!(dispatch(&chunks, &font, dot, 3, &wide), dispatch(&chunks, &font, dot, 3, &wide));
}

#[test]
fn the_first_chunk_that_fails_fails_the_dispatch() {
    let font = five();
    let mut chunks = seven_chunks();
    let jaccard = Converter::Score(Metric::Jaccard);
    let silent = NoiseSource::silent();
    for workers in [1usize, 2, 7] {
        assert_eq!(dispatch(&chunks, &font, jaccard, workers, &silent), Err(ConvertError::UndefinedScore));
    }
    chunks[0] = vec![U, U, U];
    for workers in [1usize, 2, 7] {
        assert_eq!(dispatch(&chunks, &font, jaccard, workers, &silent), Err(ConvertError::MalformedChunk));
    }
    chunks.swap(0, 3);
    for workers in [1usize, 2, 7] {
        assert_eq!(dispatch(&chunks, &font, jaccard, workers, &silent), Err(ConvertError::UndefinedScore));
    }
    let none: Vec<Vec<i32>> = Vec::new();
    assert_eq!(dispatch(&none, &font, jaccard, 3, &silent), Ok(vec![]));
}

#[test]
fn a_worker_converts_its_slice() {
    let font = five();
    let chunks = seven_chunks();
    let occlusion = Converter::Score(Metric::Occlusion);
    let silent = NoiseSource::silent();
    assert_eq!(convert_slice(occlusion, &font, &chunks, 2, 5, &silent), Ok(vec!['-', '-', '-']));
    assert_eq!(convert_slice(occlusion, &font, &chunks, 3, 3, &silent), Ok(vec![]));
    assert_eq!(
        convert_slice(Converter::Score(Metric::Jaccard), &font, &chunks, 0, 7, &silent),
        Err(ConvertError::UndefinedScore)
    );
    assert_eq!(
        convert_slice(Converter::Score(Metric::Jaccard), &font, &chunks, 2, 6, &silent),
        Ok(vec!['|', '-', '#', '-'])
    );
}

#[test]
fn workers_and_a_coordinator_give_what_the_dispatch_gives() {
    let font = five();
    let chunks = seven_chunks();
    let occlusion = Converter::Score(Metric::Occlusion);
    let noise = NoiseSource::new(5, 200000);
    for workers in [1usize, 2, 3, 7] {
        let size = chunks_per_worker(chunks.len(), workers);
        let count = (chunks.len() + size - 1) / size;
        let mut parts = Vec::new();
        for slice in (0..count).rev() {
            let start = slice * size;
            let end = (start + size).min(chunks.len());
            let source = noise.for_slice(slice);
            parts.push((slice, convert_slice(occlusion, &font, &chunks, start, end, &source).unwrap()));
        }
        assert_eq!(
            assemble(&parts, count),
            Some(dispatch(&chunks, &font, occlusion, workers, &noise).unwrap())
        );
    }
}

#[test]
fn the_coordinator_orders_the_parts_by_their_numbers() {
    let parts = vec![(2usize, vec!['e', 'f']), (0, vec!['a', 'b']), (1, vec!['c', 'd']), (1, vec!['x'])];
    assert_eq!(assemble(&parts, 3), Some(vec!['a', 'b', 'c', 'd', 'e', 'f']));
    assert_eq!(assemble(&parts, 2), Some(vec!['a', 'b', 'c', 'd']));
    assert_eq!(assemble(&parts, 0), Some(vec![]));
    assert_eq!(assemble(&parts, 4), None);
    assert_eq!(assemble(&parts[..2], 3), None);
    assert_eq!(assemble(&[], 1), None);
}

#[test]
fn the_edge_character_wins_unless_it_is_blank() {
    let luma = vec!['a', 'b', 'c', ' ', 'e'];
    let edge = vec![' ', '/', ' ', ' ', '-'];
    assert_eq!(merge_passes(&luma, &edge), vec!['a', '/', 'c', ' ', '-']);
    assert_eq!(merge_passes(&[], &[]), Vec::<char>::new());
}

#[test]
fn characters_cut_into_rows() {
    let chars: Vec<char> = "abcdef".chars().collect();
    assert_eq!(chars_to_rows(&chars, 3, 2), rows(&["abc", "def"]));
    assert_eq!(chars_to_rows(&chars, 2, 3), rows(&["ab", "cd", "ef"]));
    assert_eq!(chars_to_rows(&chars, 6, 1), rows(&["abcdef"]));
    assert_eq!(chars_to_rows(&[], 0, 3), rows(&["", "", ""]));
    assert_eq!(chars_to_rows(&[], 4, 0), Vec::<Vec<char>>::new());
}

#[test]
fn a_number_brought_to_a_multiple() {
    assert_eq!(round_up_to_multiple(10, 7), 7);
    assert_eq!(round_up_to_multiple(14, 7), 14);
    assert_eq!(round_up_to_multiple(6, 7), 0);
    assert_eq!(round_up_to_multiple(0, 7), 0);
    assert_eq!(round_up_to_multiple(-10, 7), -7);
    assert_eq!(round_up_to_multiple(-14, 7), -14);
    assert_eq!(round_up_to_multiple(i32::MAX, 2), i32::MAX - 1);
    assert_eq!(round_up_to_multiple(-i32::MAX, 2), -i32::MAX + 1);
    assert_eq!(round_up_to_multiple(5, 1), 5);
}

fn layout(out_width: usize, out_height: usize, out_img_width: usize, out_img_height: usize) -> Layout {
    Layout { out_width, out_height, out_img_width, out_img_height }
}

fn wide_font() -> Font {
    let mut bits = vec![0; 7 * 13];
    bits[0] = U;
    let glyphs = vec![Character::new('x', bits, 7, 13)];
    Font::new(&glyphs, &['x']).unwrap()
}

#[test]
fn the_layout_keeps_the_proportions() {
    let font = five();
    assert_eq!(plan_layout(&font, 8, 4, None), Ok(layout(4, 2, 8, 4)));
    assert_eq!(plan_layout(&font, 8, 4, Some(3)), Ok(layout(3, 2, 6, 4)));
    assert_eq!(plan_layout(&font, 3, 3, None), Ok(layout(1, 1, 2, 2)));
    assert_eq!(plan_layout(&font, 1, 1, Some(1)), Ok(layout(1, 1, 2, 2)));
    // 3 * 1 * 2 / (2 * 2) = 1.5 rounds to 2, and 2.5 to 3
    assert_eq!(plan_layout(&font, 2, 3, Some(1)), Ok(layout(1, 2, 2, 4)));
    assert_eq!(plan_layout(&font, 2, 5, Some(1)), Ok(layout(1, 3, 2, 6)));
    let wide = wide_font();
    assert_eq!(plan_layout(&wide, 10, 10, None), Ok(layout(1, 1, 7, 13)));
    assert_eq!(plan_layout(&wide, 100, 50, Some(20)), Ok(layout(20, 5, 140, 65)));
    // 480 * (150 / 640) * (7 / 13) = 60.58
    assert_eq!(plan_layout(&wide, 640, 480, Some(150)), Ok(layout(150, 61, 1050, 793)));
}

#[test]
fn the_layout_of_an_image_without_pixels() {
    let font = five();
    assert_eq!(plan_layout(&font, 5, 0, None), Ok(layout(2, 0, 4, 0)));
    assert_eq!(plan_layout(&font, 0, 5, Some(4)), Ok(layout(4, 0, 8, 0)));
    assert_eq!(plan_layout(&font, 0, 0, None), Ok(layout(0, 0, 0, 0)));
}

#[test]
fn a_layout_the_machine_cannot_hold() {
    let font = five();
    assert_eq!(plan_layout(&font, 1, usize::MAX, Some(usize::MAX)), Err(ConvertError::TooLarge));
    assert_eq!(plan_layout(&font, 4, 4, Some(usize::MAX)), Err(ConvertError::TooLarge));
    assert_eq!(plan_layout(&font, 1, usize::MAX / 2, Some(1)), Err(ConvertError::TooLarge));
    let img = LumaImage::from_pixels(1, 1, vec![U]).unwrap();
    assert_eq!(
        img_to_char_rows(
            &font,
            &img,
            Converter::Intensity,
            Some(usize::MAX / 2),
            0,
            &ConversionAlgorithm::Base
        ),
        Err(ConvertError::TooLarge)
    );
}

#[test]
fn the_samples_of_the_passes() {
    let img = box_image();
    let plan = layout(3, 3, 6, 6);
    assert_eq!(&base_pixels(&img, &plan, 0), img.pixels());
    let shifted: Vec<i32> = img.pixels().iter().map(|p| p - 1000).collect();
    assert_eq!(base_pixels(&img, &plan, 1000), shifted);
    let edges = vec![
        -2714, 2408, 5138, 5138, 2408, -2714, 2408, 18632, 18632, 18632, 18632, 2408, 5138, 18632,
        748, 748, 18632, 5138, 5138, 18632, 748, 748, 18632, 5138, 2408, 18632, 18632, 18632,
        18632, 2408, -2714, 2408, 5138, 5138, 2408, -2714,
    ];
    assert_eq!(edge_pixels(&img, &plan, 0), edges);
    let lower: Vec<i32> = edges.iter().map(|p| p + 7).collect();
    assert_eq!(edge_pixels(&img, &plan, -7), lower);
    let both: Vec<i32> = img.pixels().iter().zip(&edges).map(|(l, e)| l / 4 + e - 5).collect();
    assert_eq!(augmented_pixels(&img, &plan, 5), both);
    assert_eq!(base_pixels(&img, &layout(1, 1, 2, 2), i32::MIN), vec![i32::MAX; 4]);
}

#[test]
fn the_characters_of_a_picture() {
    let font = five();
    let img = box_image();
    assert_eq!(
        pixels_to_chars(img.pixels(), 6, 6, &font, Converter::Intensity),
        Ok(".|.| |.|.".chars().collect())
    );
    assert_eq!(
        pixels_to_chars(img.pixels(), 6, 6, &font, Converter::Score(Metric::Jaccard)),
        Err(ConvertError::UndefinedScore)
    );
    assert_eq!(pixels_to_chars(&[], 0, 0, &font, Converter::Intensity), Ok(vec![]));
    assert_eq!(pixels_to_chars(&[U], 1, 1, &font, Converter::Intensity), Ok(vec![]));
}

fn convert_box(font: &Font, convert: Converter, out_width: Option<usize>, offset: i32, name: &str) -> Vec<Vec<char>> {
    img_to_char_rows(font, &box_image(), convert, out_width, offset, &get_conversion_algorithm(name)).unwrap()
}

#[test]
fn the_base_algorithm() {
    let font = five();
    let occlusion = Converter::Score(Metric::Occlusion);
    assert_eq!(convert_box(&font, Converter::Intensity, None, 0, "base"), rows(&[".|.", "| |", ".|."]));
    assert_eq!(
        convert_box(&font, Converter::Intensity, Some(4), 0, "base"),
        rows(&[" .. ", "..|.", ".||.", " .. "])
    );
    assert_eq!(convert_box(&font, Converter::Intensity, None, U / 4, "base"), rows(&[" . ", ". .", " . "]));
    assert_eq!(convert_box(&font, occlusion, None, 0, "base"), rows(&[".-.", "- -", ".-."]));
    assert_eq!(convert_box(&font, occlusion, Some(4), 0, "base"), rows(&[".-- ", "---.", "---.", " .. "]));
}

#[test]
fn the_edge_algorithm_goes_by_direction_whatever_the_converter() {
    let font = five();
    for convert in [Converter::Intensity, Converter::Score(Metric::Occlusion), Converter::Score(Metric::Jaccard)] {
        assert_eq!(convert_box(&font, convert, None, 0, "edge"), rows(&["|..", "|..", "#--"]));
        assert_eq!(
            convert_box(&font, convert, Some(4), 0, "edge"),
            rows(&["|...", "|-#.", "|.|.", "|--."])
        );
    }
    assert_eq!(convert_box(&four(), Converter::Intensity, None, 0, "edge"), rows(&["|  ", "|  ", "#--"]));
}

#[test]
fn the_edge_augmented_algorithm() {
    let font = five();
    let occlusion = Converter::Score(Metric::Occlusion);
    assert_eq!(
        convert_box(&font, Converter::Intensity, None, 0, "edge-augmented"),
        rows(&[" . ", ". .", " . "])
    );
    assert_eq!(
        convert_box(&font, Converter::Intensity, Some(4), 0, "edge-augmented"),
        rows(&["    ", "  . ", " .. ", "    "])
    );
    assert_eq!(convert_box(&font, occlusion, None, 0, "edge-augmented"), rows(&["...", ". .", "..."]));
    assert_eq!(
        convert_box(&font, occlusion, None, U / 4, "edge-augmented"),
        rows(&["   ", "   ", "   "])
    );
    assert_eq!(
        convert_box(&four(), Converter::Score(Metric::Dot), None, 0, "edge-augmented"),
        rows(&["##|", "###", "-#-"])
    );
}

#[test]
fn the_two_pass_algorithm_on_a_box() {
    let font = four();
    let occlusion = Converter::Score(Metric::Occlusion);
    let dot = Converter::Score(Metric::Dot);
    assert_eq!(convert_box(&font, Converter::Intensity, None, 0, "base"), rows(&["|||", "| |", "|||"]));
    assert_eq!(convert_box(&font, Converter::Intensity, None, 0, "edge"), rows(&["|  ", "|  ", "#--"]));
    assert_eq!(convert_box(&font, Converter::Intensity, None, 0, "two-pass"), rows(&["|||", "| |", "#--"]));
    assert_eq!(convert_box(&font, occlusion, None, 0, "base"), rows(&["---", "- -", "---"]));
    assert_eq!(convert_box(&font, occlusion, None, 0, "two-pass"), rows(&["|--", "| -", "#--"]));
    assert_eq!(convert_box(&font, dot, None, 0, "two-pass"), rows(&["|##", "|##", "#--"]));
}

#[test]
fn two_passes_are_the_edge_pass_laid_over_the_base_pass() {
    let font = four();
    let img = stripes();
    for offset in [0, 3000] {
        for convert in [Converter::Intensity, Converter::Score(Metric::Occlusion)] {
            let base = img_to_char_rows(&font, &img, convert, None, offset, &ConversionAlgorithm::Base).unwrap();
            let edge = img_to_char_rows(&font, &img, convert, None, offset, &ConversionAlgorithm::Edge).unwrap();
            let both = img_to_char_rows(&font, &img, convert, None, offset, &ConversionAlgorithm::TwoPass).unwrap();
            assert_eq!(edge, rows(&["----", "---#", "   |", "----"]));
            assert_eq!(both.len(), 4);
            for y in 0..4 {
                assert_eq!(both[y].len(), 4);
                for x in 0..4 {
                    let expected = if edge[y][x] == ' ' { base[y][x] } else { edge[y][x] };
                    assert_eq!(both[y][x], expected);
                }
            }
        }
    }
    assert_eq!(
        img_to_char_rows(&font, &img, Converter::Intensity, None, 0, &ConversionAlgorithm::Base),
        Ok(rows(&["||||", "||||", "####", "    "]))
    );
    assert_eq!(
        img_to_char_rows(&font, &img, Converter::Intensity, None, 0, &ConversionAlgorithm::TwoPass),
        Ok(rows(&["----", "---#", "###|", "----"]))
    );
    assert_eq!(
        img_to_char_rows(&font, &img, Converter::Intensity, None, 3000, &ConversionAlgorithm::TwoPass),
        Ok(rows(&["----", "---#", "||||", "----"]))
    );
    assert_eq!(
        img_to_char_rows(
            &font,
            &img,
            Converter::Score(Metric::Occlusion),
            None,
            3000,
            &ConversionAlgorithm::TwoPass
        ),
        Ok(rows(&["----", "---#", "---|", "----"]))
    );
}

#[test]
fn a_flat_image_has_no_edges() {
    let font = four();
    let img = LumaImage::from_pixels(4, 4, vec![U / 3; 16]).unwrap();
    let run = |name: &str| {
        img_to_char_rows(&font, &img, Converter::Intensity, None, 0, &get_conversion_algorithm(name))
    };
    assert_eq!(run("base"), Ok(rows(&["||", "||"])));
    assert_eq!(run("edge"), Ok(rows(&["  ", "  "])));
    assert_eq!(run("two-pass"), Ok(rows(&["||", "||"])));
    assert_eq!(run("edge-augmented"), Ok(rows(&["||", "||"])));
}

#[test]
fn a_conversion_that_fails_gives_no_rows() {
    let font = five();
    let img = box_image();
    let jaccard = Converter::Score(Metric::Jaccard);
    for algorithm in [ConversionAlgorithm::Base, ConversionAlgorithm::TwoPass] {
        assert_eq!(
            img_to_char_rows(&font, &img, jaccard, None, 0, &algorithm),
            Err(ConvertError::UndefinedScore)
        );
    }
    let plan = layout(3, 3, 6, 6);
    let silent = NoiseSource::silent();
    assert_eq!(
        convert_image(&font, &img, jaccard, &plan, 0, &ConversionAlgorithm::Base, 1, &silent),
        Err(ConvertError::UndefinedScore)
    );
    assert_eq!(
        convert_image(&font, &img, Converter::Intensity, &plan, 0, &ConversionAlgorithm::Base, 3, &silent),
        Ok(".|.| |.|.".chars().collect())
    );
}

#[test]
fn an_image_without_pixels_has_no_rows() {
    let font = five();
    let none: LumaImage<i32> = LumaImage::from_pixels(0, 0, vec![]).unwrap();
    for algorithm in [
        ConversionAlgorithm::Base,
        ConversionAlgorithm::Edge,
        ConversionAlgorithm::EdgeAugmented,
        ConversionAlgorithm::TwoPass,
    ] {
        assert_eq!(
            img_to_char_rows(&font, &none, Converter::Intensity, None, 0, &algorithm),
            Ok(vec![])
        );
        assert_eq!(
            img_to_char_rows(&font, &none, Converter::Intensity, Some(3), 0, &algorithm),
            Ok(vec![])
        );
    }
}

#[test]
fn a_conversion_without_offsets_is_the_same_for_any_number_of_workers() {
    let font = five();
    let img = box_image();
    let occlusion = Converter::Score(Metric::Occlusion);
    for algorithm in [
        ConversionAlgorithm::Base,
        ConversionAlgorithm::Edge,
        ConversionAlgorithm::EdgeAugmented,
        ConversionAlgorithm::TwoPass,
    ] {
        let one = img_to_char_rows(&font, &img, occlusion, None, 0, &algorithm);
        for workers in [0usize, 1, 2, 3, 9, 50] {
            for seed in [0u64, 77] {
                let noise = NoiseSource::new(seed, 0);
                assert_eq!(
                    img_to_char_rows_with(&font, &img, occlusion, None, 0, &algorithm, workers, &noise),
                    one
                );
            }
        }
    }
    assert_eq!(
        img_to_char_rows(&font, &img, occlusion, None, 0, &ConversionAlgorithm::Base),
        Ok(rows(&[".-.", "- -", ".-."]))
    );
    assert_eq!(
        pixels_to_chars_with(img.pixels(), 6, 6, &font, Converter::Intensity, 4, &NoiseSource::silent()),
        pixels_to_chars(img.pixels(), 6, 6, &font, Converter::Intensity)
    );
}

#[test]
fn a_conversion_with_offsets_depends_on_the_workers() {
    let font = five();
    let img = box_image();
    let occlusion = Converter::Score(Metric::Occlusion);
    let noise = NoiseSource::new(5, 200000);
    let run = |algorithm: ConversionAlgorithm, workers: usize| {
        img_to_char_rows_with(&font, &img, occlusion, None, 0, &algorithm, workers, &noise)
    };
    assert_eq!(run(ConversionAlgorithm::Base, 1), Ok(rows(&["-|.", "| #", ".-."])));
    assert_eq!(run(ConversionAlgorithm::Base, 2), Ok(rows(&["-|.", "| |", ".-."])));
    assert_eq!(run(ConversionAlgorithm::Base, 4), Ok(rows(&["-|.", "| -", ".|."])));
    assert_eq!(run(ConversionAlgorithm::TwoPass, 1), Ok(rows(&["#|.", "| #", ".-."])));
    assert_eq!(run(ConversionAlgorithm::TwoPass, 2), Ok(rows(&["#|.", "| |", ".-."])));
    assert_eq!(run(ConversionAlgorithm::TwoPass, 4), Ok(rows(&["#|.", "| -", "..."])));
    assert_eq!(run(ConversionAlgorithm::Base, 2), run(ConversionAlgorithm::Base, 2));
}
