use glyph_art::fixed::UNIT;
use glyph_art::font::{Axis, Character, Font, FontError, MAX_AREA};

const U: i32 = UNIT;

fn glyph(value: char, bits: &[i32], width: usize, height: usize) -> Character {
    let bitmap: Vec<i32> = bits.iter().map(|b| b * U).collect();
    assert!(Character::fits(&bitmap, width, height));
    Character::new(value, bitmap, width, height)
}

fn small_glyphs() -> Vec<Character> {
    vec![
        glyph(' ', &[0, 0, 0, 0], 2, 2),
        glyph('.', &[0, 0, 1, 0], 2, 2),
        glyph('|', &[1, 0, 1, 0], 2, 2),
        glyph('-', &[1, 1, 0, 0], 2, 2),
        glyph('#', &[1, 1, 1, 1], 2, 2),
    ]
}

fn values(font: &Font) -> Vec<char> {
    font.chars.iter().map(|c| c.value).collect()
}

#[test]
fn a_glyph_keeps_what_it_was_made_from() {
    let c = Character::new('x', vec![0, U, U / 2, 7], 2, 2);
    assert_eq!(c.value, 'x');
    assert_eq!(c.bitmap, vec![0, U, U / 2, 7]);
    assert_eq!((c.width, c.height), (2, 2));
    assert_eq!(c.intensity, (U + U / 2 + 7) as i64);
    assert_eq!(c.get(0, 0), 0);
    assert_eq!(c.get(1, 0), U);
    assert_eq!(c.get(0, 1), U / 2);
    assert_eq!(c.get(1, 1), 7);
}

#[test]
fn which_bitmaps_make_a_glyph() {
    assert!(Character::fits(&[0, U], 2, 1));
    assert!(Character::fits(&[], 0, 0));
    assert!(Character::fits(&[], 0, 7));
    assert!(!Character::fits(&[0, U], 2, 2));
    assert!(!Character::fits(&[0, U, 0], 2, 1));
    assert!(!Character::fits(&[0, U + 1], 2, 1));
    assert!(!Character::fits(&[-1, U], 2, 1));
    assert!(!Character::fits(&[], usize::MAX, 2));
    assert!(!Character::fits(&[], MAX_AREA + 1, 1));
    assert_eq!(MAX_AREA, 0x7fff_ffff);
}

#[test]
fn brightness_is_the_sum_of_the_bitmap() {
    let glyphs = small_glyphs();
    let sums: Vec<i64> = glyphs.iter().map(|c| c.intensity).collect();
    assert_eq!(sums, vec![0, 65536, 131072, 131072, 262144]);
}

#[test]
fn the_gradient_counts_rises_to_the_right_and_downward() {
    let glyphs = small_glyphs();
    let grads: Vec<(usize, usize)> = glyphs.iter().map(|c| c.grad).collect();
    assert_eq!(grads, vec![(0, 0), (0, 1), (0, 0), (0, 0), (0, 0)]);
    let slash = glyph('/', &[0, 0, 1, 0, 1, 0, 1, 0, 0], 3, 3);
    assert_eq!(slash.grad, (2, 2));
    let ramp = Character::new('r', vec![0, 100, 200, 300, 50, 400], 3, 2);
    // rises to the right: 0<100, 100<200, 50<400; the end of a row has no right neighbour
    // rises downward: 0<300, 200<400
    assert_eq!(ramp.grad, (3, 2));
}

#[test]
fn the_direction_of_small_glyphs() {
    let glyphs = small_glyphs();
    let directions: Vec<(i32, i32)> = glyphs.iter().map(|c| c.direction).collect();
    assert_eq!(
        directions,
        vec![(0, 0), (0, 0), (0, 21845), (21845, 0), (13107, 26214)]
    );
}

#[test]
fn the_direction_of_a_slash() {
    let slash = glyph('/', &[0, 0, 1, 0, 1, 0, 1, 0, 0], 3, 3);
    assert_eq!(slash.intensity, 196608);
    assert_eq!(slash.direction, (-26214, 26214));
    let uneven = Character::new('h', vec![U / 2, 0, U, 0, U / 4, 0, U, 0, 0], 3, 3);
    assert_eq!(uneven.intensity, 180224);
    assert_eq!(uneven.grad, (2, 2));
    assert_eq!(uneven.direction, (-15420, 23130));
}

#[test]
fn a_blank_bitmap_faces_nowhere() {
    for (w, h) in [(1usize, 1usize), (2, 2), (3, 3), (7, 13), (0, 0), (5, 0)] {
        let c = Character::new(' ', vec![0; w * h], w, h);
        assert_eq!(c.direction, (0, 0));
        assert_eq!(c.intensity, 0);
        assert_eq!(c.grad, (0, 0));
    }
}

#[test]
fn a_font_keeps_the_glyphs_of_the_alphabet_in_their_order() {
    let glyphs = small_glyphs();
    let font = Font::new(&glyphs, &['#', ' ', '|', 'z']).unwrap();
    assert_eq!(values(&font), vec![' ', '|', '#']);
    assert_eq!((font.width, font.height), (2, 2));
    assert_eq!(font.chars[1].bitmap, vec![U, 0, U, 0]);
    assert_eq!(font.chars[1].direction, (0, 21845));
    assert_eq!(font.chars[2].intensity, 262144);
    let all = Font::new(&glyphs, &[' ', '.', '|', '-', '#']).unwrap();
    assert_eq!(values(&all), vec![' ', '.', '|', '-', '#']);
}

#[test]
fn the_table_names_the_first_glyph_of_the_nearest_level_above() {
    let glyphs = small_glyphs();
    let font = Font::new(&glyphs, &[' ', '.', '|', '-', '#']).unwrap();
    // levels of the glyphs: 0, 1, 2, 2, 4
    assert_eq!(font.intensity_chars, vec![0, 1, 2, 4, 4]);
    let few = Font::new(&glyphs, &['.', '#']).unwrap();
    // levels 1 and 4
    assert_eq!(few.intensity_chars, vec![0, 0, 1, 1, 1]);
    let dim = Font::new(&glyphs, &['-', '|', '.']).unwrap();
    // '.', '|', '-' with levels 2, 4, 4
    assert_eq!(values(&dim), vec!['.', '|', '-']);
    assert_eq!(dim.intensity_chars, vec![0, 0, 0, 1, 1]);
}

#[test]
fn the_table_has_an_entry_for_every_level_and_never_falls() {
    let mut glyphs = Vec::new();
    let (w, h) = (3usize, 4usize);
    for k in 0..=12usize {
        if k % 3 == 1 {
            continue;
        }
        let mut bits = vec![0; w * h];
        for b in bits.iter_mut().take(k) {
            *b = U;
        }
        glyphs.push(Character::new((b'a' + k as u8) as char, bits, w, h));
    }
    glyphs.push(Character::new('~', vec![U / 2; 12], w, h));
    let alphabet: Vec<char> = glyphs.iter().map(|c| c.value).collect();
    let font = Font::new(&glyphs, &alphabet).unwrap();
    assert_eq!(font.intensity_chars.len(), w * h + 1);
    let raw: Vec<i64> = font.chars.iter().map(|c| c.intensity / U as i64).collect();
    let top = *raw.iter().max().unwrap();
    assert_eq!(top, 12);
    let level: Vec<i64> = raw.iter().map(|r| r * 12 / top).collect();
    let mut last = -1;
    for (i, &g) in font.intensity_chars.iter().enumerate() {
        assert!(g < font.chars.len());
        assert!(level[g] >= i as i64);
        assert!(level[g] >= last);
        last = level[g];
        for (j, &other) in level.iter().enumerate() {
            if other >= i as i64 {
                assert!(level[g] <= other);
            }
            if j < g {
                assert_ne!(other, level[g]);
            }
        }
    }
    assert_eq!(font.intensity_chars[0], 0);
    assert_eq!(font.chars[font.intensity_chars[1]].value, 'c');
    assert_eq!(font.chars[font.intensity_chars[6]].value, 'g');
    assert_eq!(font.chars[font.intensity_chars[12]].value, 'm');
}

#[test]
fn no_glyph_of_the_alphabet() {
    let glyphs = small_glyphs();
    assert_eq!(Font::new(&glyphs, &['a', 'b']).err(), Some(FontError::EmptyAlphabet));
    assert_eq!(Font::new(&glyphs, &[]).err(), Some(FontError::EmptyAlphabet));
    assert_eq!(Font::new(&[], &['a']).err(), Some(FontError::EmptyAlphabet));
}

#[test]
fn glyphs_of_different_heights() {
    let glyphs = vec![
        glyph('a', &[1, 1, 1, 1, 1, 1], 2, 3),
        glyph('b', &[1, 1], 2, 1),
        glyph('c', &[1, 1, 1, 1, 1], 1, 5),
        glyph('d', &[1, 1, 1, 1], 2, 2),
    ];
    assert_eq!(
        Font::new(&glyphs, &['a', 'b', 'c', 'd']).err(),
        Some(FontError::DimensionMismatch { axis: Axis::Height, min: 1, max: 5 })
    );
    assert_eq!(
        Font::new(&glyphs, &['a', 'd']).err(),
        Some(FontError::DimensionMismatch { axis: Axis::Height, min: 2, max: 3 })
    );
    assert!(Font::new(&glyphs, &['d']).is_ok());
}

#[test]
fn glyphs_of_different_widths() {
    let glyphs = vec![
        glyph('a', &[1, 1, 1, 1, 1, 1], 3, 2),
        glyph('b', &[1, 1], 1, 2),
        glyph('c', &[1, 1, 1, 1], 2, 2),
    ];
    assert_eq!(
        Font::new(&glyphs, &['a', 'b', 'c']).err(),
        Some(FontError::DimensionMismatch { axis: Axis::Width, min: 1, max: 3 })
    );
    assert_eq!(
        Font::new(&glyphs, &['c', 'a']).err(),
        Some(FontError::DimensionMismatch { axis: Axis::Width, min: 2, max: 3 })
    );
}

#[test]
fn glyphs_without_a_lit_pixel() {
    let glyphs = vec![glyph(' ', &[0, 0, 0, 0], 2, 2), Character::new('.', vec![0, U - 1, 0, 0], 2, 2)];
    assert_eq!(Font::new(&glyphs, &[' ', '.']).err(), Some(FontError::NoInk));
    let none = vec![Character::new(' ', vec![], 0, 0)];
    assert_eq!(Font::new(&none, &[' ']).err(), Some(FontError::NoInk));
}

#[test]
fn the_glyph_of_a_character() {
    let mut glyphs = small_glyphs();
    glyphs.push(glyph('|', &[0, 1, 0, 1], 2, 2));
    let font = Font::new(&glyphs, &[' ', '.', '|', '-', '#']).unwrap();
    assert_eq!(values(&font), vec![' ', '.', '|', '-', '#', '|']);
    assert_eq!(font.glyph(' '), Some(0));
    assert_eq!(font.glyph('#'), Some(4));
    assert_eq!(font.glyph('|'), Some(5));
    assert_eq!(font.glyph('x'), None);
}

const SMALL_BDF: &str = "STARTFONT 2.1
FONT small
SIZE 8 75 75
FONTBOUNDINGBOX 2 2 0 0
CHARS 4
STARTCHAR bang
ENCODING 289
SWIDTH 500 0
DWIDTH 2 0
BBX 2 2 0 0
BITMAP
40
00
ENDCHAR
STARTCHAR bar
ENCODING 124
SWIDTH 500 0
DWIDTH 2 0
BBX 2 2 0 0
BITMAP
80
80
ENDCHAR
STARTCHAR hash
ENCODING 35
SWIDTH 500 0
DWIDTH 2 0
BBX 2 2 0 0
BITMAP
C0
C0
ENDCHAR
STARTCHAR space
ENCODING 32
SWIDTH 500 0
DWIDTH 2 0
BBX 2 2 0 0
BITMAP
00
00
ENDCHAR
ENDFONT
";

fn parsed(text: &str) -> Vec<bdf_reader::Glyph> {
    let font = bdf_reader::Font::read(text.as_bytes()).unwrap();
    font.glyphs().into_iter().cloned().collect()
}

#[test]
fn a_font_from_parsed_glyphs() {
    let glyphs = parsed(SMALL_BDF);
    let encodings: Vec<u32> = glyphs.iter().map(|g| g.encoding()).collect();
    assert_eq!(encodings, vec![32, 35, 124, 289]);
    let font = Font::from_bdf(&glyphs, &[' ', '!', '#', '|', 'x']).unwrap();
    assert_eq!(values(&font), vec![' ', '!', '#', '|']);
    assert_eq!((font.width, font.height), (2, 2));
    assert_eq!(font.chars[0].bitmap, vec![0, 0, 0, 0]);
    assert_eq!(font.chars[1].bitmap, vec![0, U, 0, 0]);
    assert_eq!(font.chars[2].bitmap, vec![U, U, U, U]);
    assert_eq!(font.chars[3].bitmap, vec![U, 0, U, 0]);
    assert_eq!(font.chars[3].direction, (0, 21845));
    // levels 0, 1, 4, 2
    assert_eq!(font.intensity_chars, vec![0, 1, 3, 2, 2]);
    let part = Font::from_bdf(&glyphs, &['#', '|']).unwrap();
    assert_eq!(values(&part), vec!['#', '|']);
    assert_eq!(Font::from_bdf(&glyphs, &['a']).err(), Some(FontError::EmptyAlphabet));
    assert_eq!(Font::from_bdf(&[], &['a']).err(), Some(FontError::EmptyAlphabet));
}

#[test]
fn a_parsed_glyph_without_all_its_bits() {
    let text = "STARTFONT 2.1
FONT short
SIZE 8 75 75
FONTBOUNDINGBOX 9 1 0 0
CHARS 2
STARTCHAR wide
ENCODING 65
SWIDTH 500 0
DWIDTH 9 0
BBX 9 1 0 0
BITMAP
80
ENDCHAR
STARTCHAR fine
ENCODING 66
SWIDTH 500 0
DWIDTH 9 0
BBX 9 1 0 0
BITMAP
8080
ENDCHAR
ENDFONT
";
    let glyphs = parsed(text);
    assert_eq!(glyphs.len(), 2);
    assert_eq!(Font::from_bdf(&glyphs, &['A', 'B']).err(), Some(FontError::BadGlyph));
    assert_eq!(Font::from_bdf(&glyphs, &['B']).err(), Some(FontError::BadGlyph));
    let fine = Font::from_bdf(&glyphs[1..], &['A', 'B']).unwrap();
    assert_eq!(values(&fine), vec!['B']);
    assert_eq!(fine.chars[0].bitmap, vec![U, 0, 0, 0, 0, 0, 0, 0, U]);
}

#[test]
fn parsed_glyphs_of_different_sizes() {
    let text = "STARTFONT 2.1
FONT mixed
SIZE 8 75 75
FONTBOUNDINGBOX 2 2 0 0
CHARS 2
STARTCHAR a
ENCODING 97
SWIDTH 500 0
DWIDTH 2 0
BBX 2 2 0 0
BITMAP
C0
C0
ENDCHAR
STARTCHAR b
ENCODING 98
SWIDTH 500 0
DWIDTH 2 0
BBX 2 1 0 0
BITMAP
C0
ENDCHAR
ENDFONT
";
    let glyphs = parsed(text);
    assert_eq!(
        Font::from_bdf(&glyphs, &['a', 'b']).err(),
        Some(FontError::DimensionMismatch { axis: Axis::Height, min: 1, max: 2 })
    );
}
