//! Glyphs of a parsed BDF file, read for the font that is made of them.

use vstd::prelude::*;
use crate::fixed::UNIT;
use crate::font::{made, views, Character, Font, FontError, GlyphView, MAX_AREA};
use crate::image::lemma_cell_of;

verus! {

/// `bdf_reader::Glyph`: one glyph as the parser holds it. Nothing of its
/// inside is known here but through the three readers below.
#[verifier::external_type_specification]
#[verifier::external_body]
pub struct ExBdfGlyph(bdf_reader::Glyph);

/// The rows of bits of the bitmap of a parsed glyph.
pub uninterp spec fn glyph_rows(glyph: bdf_reader::Glyph) -> Seq<Seq<bool>>;

/// The encoding of a parsed glyph, and the width and the height of its
/// bounding box.
pub uninterp spec fn glyph_header(glyph: bdf_reader::Glyph) -> (u32, u32, u32);

/// The bit in column `x` of row `y`, where the bitmap has one.
pub open spec fn bit_at(rows: Seq<Seq<bool>>, x: int, y: int) -> Option<bool> {
    if 0 <= y < rows.len() && 0 <= x < rows[y].len() {
        Some(rows[y][x])
    } else {
        None
    }
}

/// What `bdf_reader::Glyph::encoding` returns: the encoding that the parser
/// stored with the glyph.
#[verifier::external_body]
pub(crate) fn read_encoding(glyph: &bdf_reader::Glyph) -> (r: u32)
    ensures
        r == glyph_header(*glyph).0,
{
    glyph.encoding()
}

/// The width and the height of what `bdf_reader::Glyph::bounding_box`
/// returns: two fields of the bounding box that the parser stored with the
/// glyph.
#[verifier::external_body]
pub(crate) fn read_box(glyph: &bdf_reader::Glyph) -> (r: (u32, u32))
    ensures
        r.0 == glyph_header(*glyph).1,
        r.1 == glyph_header(*glyph).2,
{
    let bbox = glyph.bounding_box();
    (bbox.width, bbox.height)
}

/// What `bdf_reader::Bitmap::get` returns for the bitmap that
/// `bdf_reader::Glyph::bitmap` hands out: the bit at `(x, y)`, or nothing
/// where the bitmap has no row `y` or the row no column `x`.
#[verifier::external_body]
pub(crate) fn read_bit(glyph: &bdf_reader::Glyph, x: usize, y: usize) -> (r: Option<bool>)
    ensures
        r == bit_at(glyph_rows(*glyph), x as int, y as int),
{
    glyph.bitmap().get(x, y).ok()
}

/// The character a parsed glyph draws: the one whose code is the low
/// byte of the glyph's encoding.
pub open spec fn drawn_value(encoding: u32) -> char {
    ((encoding % 256) as u8) as char
}

/// The glyph has a bit for every pixel of its bounding box, which holds no
/// more than `MAX_AREA` pixels.
pub open spec fn drawable(glyph: bdf_reader::Glyph) -> bool {
    let (encoding, width, height) = glyph_header(glyph);
    &&& width * height <= MAX_AREA
    &&& forall|i: int|
        0 <= i < width * height ==> (#[trigger] bit_at(
            glyph_rows(glyph),
            i % (width as int),
            i / (width as int),
        )).is_some()
}

/// The bitmap of a parsed glyph: `UNIT` for every bit set and 0 for every
/// bit clear, row by row over its bounding box.
pub open spec fn drawn_bitmap(glyph: bdf_reader::Glyph) -> Seq<i32> {
    let (encoding, width, height) = glyph_header(glyph);
    Seq::new(
        (width * height) as nat,
        |i: int|
            if bit_at(glyph_rows(glyph), i % (width as int), i / (width as int)) == Some(true) {
                UNIT
            } else {
                0i32
            },
    )
}

/// What the glyph of a font is made from, for a parsed glyph.
pub open spec fn drawn(glyph: bdf_reader::Glyph) -> GlyphView {
    let (encoding, width, height) = glyph_header(glyph);
    GlyphView {
        value: drawn_value(encoding),
        bitmap: drawn_bitmap(glyph),
        width: width as nat,
        height: height as nat,
    }
}

/// The glyphs all parsed glyphs are made into, in their order.
pub open spec fn all_drawn(glyphs: Seq<bdf_reader::Glyph>) -> Seq<GlyphView> {
    Seq::new(glyphs.len(), |i: int| drawn(glyphs[i]))
}

/// The low byte of the code of the character a glyph draws.
pub open spec fn key(g: GlyphView) -> int {
    (g.value as u32 % 256) as int
}

/// Whether a glyph has the key `k`.
pub open spec fn has_key(k: int) -> spec_fn(GlyphView) -> bool {
    |g: GlyphView| key(g) == k
}

/// The glyphs of the keys below `k`: those of key 0 in their order, then
/// those of key 1 in their order, and so on.
pub open spec fn ordered_below(glyphs: Seq<GlyphView>, k: int) -> Seq<GlyphView>
    decreases k,
{
    if k <= 0 {
        Seq::empty()
    } else {
        ordered_below(glyphs, k - 1) + glyphs.filter(has_key(k - 1))
    }
}

/// The glyphs ordered by key, glyphs of one key staying in their order.
pub open spec fn ordered(glyphs: Seq<GlyphView>) -> Seq<GlyphView> {
    ordered_below(glyphs, 256)
}

/// The glyph of a font for a parsed glyph, if the parsed glyph is
/// `drawable`.
fn draw_glyph(glyph: &bdf_reader::Glyph) -> (r: Option<Character>)
    ensures
        r.is_some() <==> drawable(*glyph),
        r matches Some(c) ==> c.wf() && c@ == drawn(*glyph),
{
    let encoding: u32 = read_encoding(glyph);
    let (w, h) = read_box(glyph);
    let width: usize = w as usize;
    let height: usize = h as usize;
    assert(0 <= width * height <= 0xffff_ffff * 0xffff_ffff) by (nonlinear_arith)
        requires
            0 <= width <= 0xffff_ffff,
            0 <= height <= 0xffff_ffff,
    ;
    let area: u64 = (w as u64) * (h as u64);
    if area > MAX_AREA as u64 {
        return None;
    }
    let n: usize = area as usize;
    let ghost goal = drawn_bitmap(*glyph);
    let mut bitmap: Vec<i32> = Vec::new();
    let mut i: usize = 0;
    while i < n
        invariant
            (encoding, w, h) == glyph_header(*glyph),
            width == w,
            height == h,
            n == width * height,
            n <= MAX_AREA,
            goal == drawn_bitmap(*glyph),
            i <= n,
            bitmap@.len() == i,
            forall|j: int| 0 <= j < i ==> #[trigger] bitmap@[j] == goal[j],
            forall|j: int| 0 <= j < i ==> 0 <= #[trigger] bitmap@[j] <= UNIT,
            forall|j: int|
                0 <= j < i ==> (#[trigger] bit_at(
                    glyph_rows(*glyph),
                    j % (width as int),
                    j / (width as int),
                )).is_some(),
        decreases n - i,
    {
        proof {
            lemma_cell_of(width as int, height as int, i as int);
        }
        match read_bit(glyph, i % width, i / width) {
            Some(lit) => {
                if lit {
                    bitmap.push(UNIT);
                } else {
                    bitmap.push(0);
                }
            },
            None => {
                return None;
            },
        }
        i = i + 1;
    }
    assert(bitmap@ =~= goal);
    Some(Character::new(low_byte_char(encoding), bitmap, width, height))
}

fn low_byte_char(encoding: u32) -> (c: char)
    ensures
        c == drawn_value(encoding),
{
    ((encoding % 256) as u8) as char
}

/// The glyphs ordered by the low byte of the character they draw, glyphs
/// of one key staying in their order.
fn order_by_value(chars: &Vec<Character>) -> (r: Vec<Character>)
    requires
        forall|i: int| 0 <= i < chars@.len() ==> (#[trigger] chars@[i]).wf(),
    ensures
        views(r@) == ordered(views(chars@)),
        forall|i: int| 0 <= i < r@.len() ==> (#[trigger] r@[i]).wf(),
{
    let n: usize = chars.len();
    let ghost all = views(chars@);
    let mut out: Vec<Character> = Vec::new();
    let mut k: u32 = 0;
    assert(views(out@) =~= Seq::<GlyphView>::empty());
    while k < 256
        invariant
            n == chars@.len(),
            all == views(chars@),
            forall|i: int| 0 <= i < chars@.len() ==> (#[trigger] chars@[i]).wf(),
            k <= 256,
            views(out@) == ordered_below(all, k as int),
            forall|i: int| 0 <= i < out@.len() ==> (#[trigger] out@[i]).wf(),
        decreases 256 - k,
    {
        let ghost before = views(out@);
        let ghost pred = has_key(k as int);
        let mut i: usize = 0;
        proof {
            assert(views(chars@.take(0)) =~= Seq::<GlyphView>::empty());
            reveal(Seq::filter);
            assert(views(out@) =~= before + views(chars@.take(0)).filter(pred));
        }
        while i < n
            invariant
                n == chars@.len(),
                all == views(chars@),
                forall|j: int| 0 <= j < chars@.len() ==> (#[trigger] chars@[j]).wf(),
                k < 256,
                pred == has_key(k as int),
                i <= n,
                views(out@) == before + views(chars@.take(i as int)).filter(pred),
                forall|j: int| 0 <= j < out@.len() ==> (#[trigger] out@[j]).wf(),
            decreases n - i,
        {
            let c: &Character = &chars[i];
            let ghost held = views(out@);
            proof {
                let head = views(chars@.take(i as int));
                assert(views(chars@.take(i + 1)) =~= head.push(c@));
                head.lemma_filter_push(c@, pred);
            }
            if (c.value as u32) % 256 == k {
                out.push(c.clone());
                proof {
                    let head = views(chars@.take(i as int));
                    assert(views(out@) =~= held.push(c@));
                    assert(held.push(c@) =~= before + head.filter(pred).push(c@));
                }
            }
            i = i + 1;
        }
        proof {
            assert(chars@.take(n as int) =~= chars@);
        }
        k = k + 1;
    }
    out
}

impl Font {
    /// Makes a font of the glyphs of a parsed BDF file that draw a character
    /// of `alphabet`. Every glyph draws the character whose code is the low
    /// byte of its encoding, with `UNIT` for every bit set; the glyphs are
    /// ordered by that byte before the font is made of them.
    ///
    /// Fails with `BadGlyph` where one of the glyphs is not `drawable`, and
    /// otherwise as `Font::new` fails.
    pub fn from_bdf(glyphs: &[bdf_reader::Glyph], alphabet: &[char]) -> (r: Result<Font, FontError>)
        ensures
            (exists|i: int| 0 <= i < glyphs@.len() && !drawable(#[trigger] glyphs@[i])) ==> r == Err::<
                Font,
                FontError,
            >(FontError::BadGlyph),
            (forall|i: int| 0 <= i < glyphs@.len() ==> drawable(#[trigger] glyphs@[i])) ==> made(
                ordered(all_drawn(glyphs@)),
                alphabet@,
                r,
            ),
    {
        let n: usize = glyphs.len();
        let mut chars: Vec<Character> = Vec::new();
        let mut i: usize = 0;
        while i < n
            invariant
                n == glyphs@.len(),
                i <= n,
                chars@.len() == i,
                forall|j: int| 0 <= j < i ==> drawable(#[trigger] glyphs@[j]),
                forall|j: int| 0 <= j < i ==> (#[trigger] chars@[j]).wf() && chars@[j]@ == drawn(glyphs@[j]),
            decreases n - i,
        {
            match draw_glyph(&glyphs[i]) {
                Some(c) => {
                    chars.push(c);
                },
                None => {
                    return Err(FontError::BadGlyph);
                },
            }
            i = i + 1;
        }
        let sorted: Vec<Character> = order_by_value(&chars);
        proof {
            assert(views(chars@) =~= all_drawn(glyphs@));
        }
        Font::new(sorted.as_slice(), alphabet)
    }
}

} // verus!
