//! A grid of characters written out: as plain text, as text with colours
//! for a terminal or for a web page, and as a picture.

use vstd::prelude::*;
use vstd::string::StringExecFns;
use crate::color::{nearest_resampled, ColorImage, Rgba};
use crate::fixed::UNIT;
use crate::font::{Character, Font};
use crate::image::{flat, gray_byte, gray_level, lemma_cell_of, LumaImage};
use colored::Colorize;

verus! {

/// `String::push` of the standard library appends one character, as its
/// documentation says.
pub assume_specification[ String::push ](s: &mut String, ch: char)
    ensures
        final(s)@ == old(s)@.push(ch),
;

/// The rows one after the other, with a line feed between each two.
pub open spec fn lines(rows: Seq<Seq<char>>) -> Seq<char>
    decreases rows.len(),
{
    if rows.len() == 0 {
        Seq::empty()
    } else if rows.len() == 1 {
        rows[0]
    } else {
        lines(rows.drop_last()) + seq!['\n'] + rows.last()
    }
}

/// The texts from place `from` up to place `to`, one after the other.
pub open spec fn run(cells: Seq<Seq<char>>, from: int, to: int) -> Seq<char>
    decreases to - from,
{
    if to <= from {
        Seq::empty()
    } else {
        run(cells, from, to - 1) + cells[to - 1]
    }
}

/// The texts of the cells of each row, one after the other.
pub open spec fn cell_rows(cells: Seq<Seq<char>>, n_cols: int, n_rows: int) -> Seq<Seq<char>> {
    Seq::new(n_rows as nat, |y: int| run(cells, y * n_cols, y * n_cols + n_cols))
}

/// The views of the texts.
pub open spec fn texts(cells: Seq<String>) -> Seq<Seq<char>> {
    Seq::new(cells.len(), |i: int| cells[i]@)
}

/// The characters of a grid as lines of text.
pub fn char_rows_to_string(char_rows: &[Vec<char>]) -> (r: String)
    ensures
        r@ == lines(crate::convert::char_rows(char_rows@)),
{
    let n: usize = char_rows.len();
    let ghost goal = crate::convert::char_rows(char_rows@);
    let mut out: String = String::new();
    let mut y: usize = 0;
    while y < n
        invariant
            n == char_rows@.len(),
            goal == crate::convert::char_rows(char_rows@),
            y <= n,
            out@ == lines(goal.take(y as int)),
        decreases n - y,
    {
        if y > 0 {
            out.push('\n');
        }
        let row: &Vec<char> = &char_rows[y];
        let width: usize = row.len();
        let ghost start = out@;
        let mut x: usize = 0;
        while x < width
            invariant
                width == row@.len(),
                x <= width,
                out@ == start + row@.take(x as int),
            decreases width - x,
        {
            out.push(row[x]);
            assert(row@.take(x + 1) =~= row@.take(x as int).push(row@[x as int]));
            x = x + 1;
        }
        proof {
            assert(row@.take(width as int) =~= row@);
            let next = goal.take(y + 1);
            assert(next.drop_last() =~= goal.take(y as int));
            assert(next.last() == row@);
            if y == 0 {
                assert(start =~= Seq::<char>::empty());
                assert(out@ =~= row@);
            }
        }
        y = y + 1;
    }
    assert(goal.take(n as int) =~= goal);
    out
}

/// The texts of the cells of a grid as lines: the cells of each row one
/// after the other, and a line feed between each two rows.
pub fn join_cells(cells: &[String], n_cols: usize, n_rows: usize) -> (r: String)
    requires
        cells@.len() == n_rows * n_cols,
    ensures
        r@ == lines(cell_rows(texts(cells@), n_cols as int, n_rows as int)),
{
    let ghost t = texts(cells@);
    let ghost goal = cell_rows(t, n_cols as int, n_rows as int);
    let count: usize = cells.len();
    let mut out: String = String::new();
    let mut y: usize = 0;
    while y < n_rows
        invariant
            count == cells@.len(),
            cells@.len() == n_rows * n_cols,
            t == texts(cells@),
            goal == cell_rows(t, n_cols as int, n_rows as int),
            y <= n_rows,
            out@ == lines(goal.take(y as int)),
        decreases n_rows - y,
    {
        if y > 0 {
            out.push('\n');
        }
        proof {
            assert(0 <= y * n_cols && y * n_cols + n_cols <= n_rows * n_cols) by (nonlinear_arith)
                requires
                    0 <= y < n_rows,
                    0 <= n_cols,
            ;
        }
        let first: usize = y * n_cols;
        let ghost start = out@;
        let mut x: usize = 0;
        while x < n_cols
            invariant
                t == texts(cells@),
                count == cells@.len(),
                first + n_cols <= cells@.len(),
                x <= n_cols,
                out@ == start + run(t, first as int, first + x),
            decreases n_cols - x,
        {
            out.append(cells[first + x].as_str());
            proof {
                assert(t[first + x] == cells@[first + x]@);
                assert(start + run(t, first as int, first + x) + t[first + x] =~= start + (run(
                    t,
                    first as int,
                    first + x,
                ) + t[first + x]));
            }
            x = x + 1;
        }
        proof {
            let next = goal.take(y + 1);
            assert(next.drop_last() =~= goal.take(y as int));
            assert(next.last() == run(t, first as int, first + n_cols));
            if y == 0 {
                assert(start =~= Seq::<char>::empty());
                assert(out@ =~= next.last());
            }
        }
        y = y + 1;
    }
    assert(goal.take(n_rows as int) =~= goal);
    out
}

/// Every row of the grid has `n_cols` characters.
pub open spec fn rectangular_rows(rows: Seq<Vec<char>>, n_cols: int) -> bool {
    forall|y: int| 0 <= y < rows.len() ==> (#[trigger] rows[y])@.len() == n_cols
}

/// The character of a decimal digit.
pub open spec fn digit(d: int) -> char {
    seq!['0', '1', '2', '3', '4', '5', '6', '7', '8', '9'][d]
}

/// A byte written in decimal, without leading zeros.
pub open spec fn decimal(v: u8) -> Seq<char> {
    if v < 10 {
        seq![digit(v as int)]
    } else if v < 100 {
        seq![digit(v as int / 10), digit(v as int % 10)]
    } else {
        seq![digit(v as int / 100), digit((v as int / 10) % 10), digit(v as int % 10)]
    }
}

/// A character inside a span that gives it the colour of a pixel.
pub open spec fn html_cell(c: char, p: Rgba) -> Seq<char> {
    "<span style=\"color: rgba("@ + decimal(p.r) + ", "@ + decimal(p.g) + ", "@ + decimal(p.b)
        + ", "@ + decimal(p.a) + ")\">"@ + seq![c] + "</span>"@
}

/// The spans of all the cells of a grid, row by row, each with the colour
/// of the pixel at its place.
pub open spec fn html_cells(rows: Seq<Vec<char>>, colors: ColorImage, n_cols: int) -> Seq<Seq<char>> {
    Seq::new(
        (rows.len() * n_cols) as nat,
        |i: int| html_cell(rows[i / n_cols]@[i % n_cols], colors.pixel(i)),
    )
}

fn digit_char(d: u8) -> (c: char)
    requires
        d < 10,
    ensures
        c == digit(d as int),
{
    if d == 0 {
        '0'
    } else if d == 1 {
        '1'
    } else if d == 2 {
        '2'
    } else if d == 3 {
        '3'
    } else if d == 4 {
        '4'
    } else if d == 5 {
        '5'
    } else if d == 6 {
        '6'
    } else if d == 7 {
        '7'
    } else if d == 8 {
        '8'
    } else {
        '9'
    }
}

fn push_decimal(s: &mut String, v: u8)
    ensures
        final(s)@ == old(s)@ + decimal(v),
{
    if v >= 100 {
        s.push(digit_char(v / 100));
        s.push(digit_char((v / 10) % 10));
        s.push(digit_char(v % 10));
        assert(s@ =~= old(s)@ + decimal(v));
    } else if v >= 10 {
        s.push(digit_char(v / 10));
        s.push(digit_char(v % 10));
        assert(s@ =~= old(s)@ + decimal(v));
    } else {
        s.push(digit_char(v));
        assert(s@ =~= old(s)@ + decimal(v));
    }
}

fn html_span(c: char, p: Rgba) -> (r: String)
    ensures
        r@ == html_cell(c, p),
{
    let mut s: String = String::new();
    s.append("<span style=\"color: rgba(");
    push_decimal(&mut s, p.r);
    s.append(", ");
    push_decimal(&mut s, p.g);
    s.append(", ");
    push_decimal(&mut s, p.b);
    s.append(", ");
    push_decimal(&mut s, p.a);
    s.append(")\">");
    s.push(c);
    s.append("</span>");
    assert(s@ =~= html_cell(c, p));
    s
}

/// The grid as lines of spans, each character in the colour of the pixel at
/// its place in `colors`, which has one pixel for each character.
pub fn html_color_string(char_rows: &[Vec<char>], colors: &ColorImage) -> (r: String)
    requires
        colors.wf(),
        colors.spec_height() == char_rows@.len(),
        rectangular_rows(char_rows@, colors.spec_width() as int),
    ensures
        r@ == lines(
            cell_rows(
                html_cells(char_rows@, *colors, colors.spec_width() as int),
                colors.spec_width() as int,
                char_rows@.len() as int,
            ),
        ),
{
    proof {
        colors.lemma_wf();
    }
    let n_rows: usize = char_rows.len();
    let n_cols: usize = colors.width() as usize;
    let ghost goal = html_cells(char_rows@, *colors, n_cols as int);
    assert(0 <= n_rows * n_cols <= 4 * (n_cols * n_rows)) by (nonlinear_arith)
        requires
            0 <= n_rows,
            0 <= n_cols,
    ;
    let count: usize = n_rows * n_cols;
    let mut cells: Vec<String> = Vec::new();
    let mut i: usize = 0;
    while i < count
        invariant
            colors.wf(),
            n_rows == char_rows@.len(),
            n_cols == colors.spec_width(),
            colors.spec_height() == n_rows,
            rectangular_rows(char_rows@, n_cols as int),
            count == n_rows * n_cols,
            goal == html_cells(char_rows@, *colors, n_cols as int),
            i <= count,
            cells@.len() == i,
            forall|j: int| 0 <= j < i ==> (#[trigger] cells@[j])@ == goal[j],
        decreases count - i,
    {
        proof {
            crate::image::lemma_cell_of(n_cols as int, n_rows as int, i as int);
            assert(n_rows * n_cols == n_cols * n_rows) by (nonlinear_arith);
        }
        let c: char = char_rows[i / n_cols][i % n_cols];
        cells.push(html_span(c, colors.pixel_at(i)));
        i = i + 1;
    }
    assert(texts(cells@) =~= goal);
    join_cells(cells.as_slice(), n_cols, n_rows)
}

/// Whether a grid can be given the colours of an image: the grid has a row,
/// its rows are equally long, and the outside resampler takes the image to
/// one pixel for each character.
pub open spec fn paintable(rows: Seq<Vec<char>>, img: ColorImage) -> bool {
    &&& rows.len() > 0
    &&& rows.len() <= u32::MAX
    &&& rows[0]@.len() <= u32::MAX
    &&& rectangular_rows(rows, rows[0]@.len() as int)
    &&& img.wf()
    &&& img.resizable(rows[0]@.len() as u32, rows.len() as u32)
}

/// Decides `paintable`.
pub fn can_paint(char_rows: &[Vec<char>], img: &ColorImage) -> (r: bool)
    requires
        img.wf(),
    ensures
        r == paintable(char_rows@, *img),
{
    let n_rows: usize = char_rows.len();
    if n_rows == 0 || n_rows > 0xffff_ffff {
        return false;
    }
    let n_cols: usize = char_rows[0].len();
    if n_cols > 0xffff_ffff {
        return false;
    }
    let mut y: usize = 0;
    while y < n_rows
        invariant
            n_rows == char_rows@.len(),
            n_rows > 0,
            n_cols == char_rows@[0]@.len(),
            y <= n_rows,
            forall|j: int| 0 <= j < y ==> (#[trigger] char_rows@[j])@.len() == n_cols,
        decreases n_rows - y,
    {
        if char_rows[y].len() != n_cols {
            proof {
                assert((char_rows@[y as int])@.len() != n_cols);
                assert(!rectangular_rows(char_rows@, n_cols as int));
            }
            return false;
        }
        y = y + 1;
    }
    img.can_resize(n_cols as u32, n_rows as u32)
}

/// The image brought to one pixel for each character of the grid.
fn cell_colors(char_rows: &[Vec<char>], img: &ColorImage) -> (r: ColorImage)
    requires
        paintable(char_rows@, *img),
    ensures
        r.wf(),
        r.spec_width() == char_rows@[0]@.len(),
        r.spec_height() == char_rows@.len(),
        r@ == nearest_resampled(
            img@,
            img.spec_width(),
            img.spec_height(),
            char_rows@[0]@.len() as nat,
            char_rows@.len() as nat,
        ),
{
    let n_rows: usize = char_rows.len();
    let n_cols: usize = char_rows[0].len();
    img.resize_nearest(n_cols as u32, n_rows as u32)
}

/// The grid as lines of spans, each character in the colour of the image
/// at its place.
pub fn char_rows_to_html_color_string(char_rows: &[Vec<char>], img: &ColorImage) -> (r: String)
    requires
        paintable(char_rows@, *img),
    ensures
        exists|colors: ColorImage|
            {
                &&& colors.wf()
                &&& colors.spec_width() == char_rows@[0]@.len()
                &&& colors.spec_height() == char_rows@.len()
                &&& colors@ == nearest_resampled(
                    img@,
                    img.spec_width(),
                    img.spec_height(),
                    char_rows@[0]@.len() as nat,
                    char_rows@.len() as nat,
                )
                &&& r@ == lines(
                    cell_rows(
                        #[trigger] html_cells(char_rows@, colors, char_rows@[0]@.len() as int),
                        char_rows@[0]@.len() as int,
                        char_rows@.len() as int,
                    ),
                )
            },
{
    let colors: ColorImage = cell_colors(char_rows, img);
    html_color_string(char_rows, &colors)
}

/// A colour sample with the pixel's alpha applied.
pub open spec fn premultiplied(c: u8, a: u8) -> u8 {
    ((c as int * a as int) / 255) as u8
}

fn premultiply(c: u8, a: u8) -> (r: u8)
    ensures
        r == premultiplied(c, a),
{
    assert(0 <= c * a <= 255 * 255) by (nonlinear_arith)
        requires
            0 <= c <= 255,
            0 <= a <= 255,
    ;
    proof {
        vstd::arithmetic::div_mod::lemma_multiply_divide_le(c as int * a as int, 255, 255);
        vstd::arithmetic::div_mod::lemma_div_pos_is_pos(c as int * a as int, 255);
    }
    ((c as u32 * a as u32) / 255) as u8
}

/// What a painted character may look like: the character alone, or the
/// character between an escape sequence that sets a style and the one that
/// resets it.
pub open spec fn painted(c: char, text: Seq<char>) -> bool {
    ||| text == seq![c]
    ||| exists|style: Seq<char>|
        text == seq!['\u{1b}', '['] + #[trigger] style.push('m') + seq![c, '\u{1b}', '[', '0', 'm']
}

/// Asks `colored::Colorize::truecolor` for the character in the given
/// colour, and formats what it answers. That crate decides from the
/// environment of the process whether it leaves the character as it is or
/// puts it between the escape sequence of a colour and the reset sequence,
/// and which colour code it writes; its source shows no third form.
#[verifier::external_body]
fn paint(c: char, r: u8, g: u8, b: u8) -> (s: String)
    ensures
        painted(c, s@),
{
    format!("{}", c.to_string().truecolor(r, g, b))
}

/// Every text is the painted character of its cell.
pub open spec fn all_painted(rows: Seq<Vec<char>>, cells: Seq<Seq<char>>, n_cols: int) -> bool {
    forall|i: int|
        0 <= i < cells.len() ==> painted(rows[i / n_cols]@[i % n_cols], #[trigger] cells[i])
}

/// The grid as lines for a colour terminal, each character painted in the
/// colour of the pixel at its place in `colors`, which has one pixel for
/// each character. What a painted character looks like is left to the
/// terminal colouring; the lines are laid out as `join_cells` lays them out.
pub fn terminal_color_string(char_rows: &[Vec<char>], colors: &ColorImage) -> (r: String)
    requires
        colors.wf(),
        colors.spec_height() == char_rows@.len(),
        rectangular_rows(char_rows@, colors.spec_width() as int),
    ensures
        exists|cells: Seq<Seq<char>>|
            {
                &&& cells.len() == char_rows@.len() * colors.spec_width()
                &&& all_painted(char_rows@, cells, colors.spec_width() as int)
                &&& r@ == lines(
                    #[trigger] cell_rows(cells, colors.spec_width() as int, char_rows@.len() as int),
                )
            },
{
    proof {
        colors.lemma_wf();
    }
    let n_rows: usize = char_rows.len();
    let n_cols: usize = colors.width() as usize;
    assert(0 <= n_rows * n_cols <= 4 * (n_cols * n_rows)) by (nonlinear_arith)
        requires
            0 <= n_rows,
            0 <= n_cols,
    ;
    let count: usize = n_rows * n_cols;
    let mut cells: Vec<String> = Vec::new();
    let mut i: usize = 0;
    while i < count
        invariant
            colors.wf(),
            n_rows == char_rows@.len(),
            n_cols == colors.spec_width(),
            colors.spec_height() == n_rows,
            rectangular_rows(char_rows@, n_cols as int),
            count == n_rows * n_cols,
            i <= count,
            cells@.len() == i,
            forall|j: int|
                0 <= j < i ==> painted(
                    char_rows@[j / (n_cols as int)]@[j % (n_cols as int)],
                    (#[trigger] cells@[j])@,
                ),
        decreases count - i,
    {
        proof {
            crate::image::lemma_cell_of(n_cols as int, n_rows as int, i as int);
            assert(n_rows * n_cols == n_cols * n_rows) by (nonlinear_arith);
        }
        let c: char = char_rows[i / n_cols][i % n_cols];
        let p: Rgba = colors.pixel_at(i);
        cells.push(paint(c, premultiply(p.r, p.a), premultiply(p.g, p.a), premultiply(p.b, p.a)));
        i = i + 1;
    }
    let out: String = join_cells(cells.as_slice(), n_cols, n_rows);
    proof {
        let t = texts(cells@);
        assert(out@ == lines(cell_rows(t, n_cols as int, n_rows as int)));
        assert(all_painted(char_rows@, t, n_cols as int)) by {
            assert forall|i: int| 0 <= i < t.len() implies painted(
                char_rows@[i / (n_cols as int)]@[i % (n_cols as int)],
                #[trigger] t[i],
            ) by {
                assert(t[i] == cells@[i]@);
            }
        }
    }
    out
}

/// The grid as lines for a colour terminal, each character in the colour
/// of the image at its place.
pub fn char_rows_to_terminal_color_string(char_rows: &[Vec<char>], img: &ColorImage) -> (r: String)
    requires
        paintable(char_rows@, *img),
    ensures
        exists|cells: Seq<Seq<char>>|
            {
                &&& cells.len() == char_rows@.len() * char_rows@[0]@.len()
                &&& all_painted(char_rows@, cells, char_rows@[0]@.len() as int)
                &&& r@ == lines(
                    #[trigger] cell_rows(cells, char_rows@[0]@.len() as int, char_rows@.len() as int),
                )
            },
{
    let colors: ColorImage = cell_colors(char_rows, img);
    terminal_color_string(char_rows, &colors)
}

/// The number of columns of a grid: the length of its first row.
pub open spec fn columns(rows: Seq<Vec<char>>) -> int {
    if rows.len() > 0 {
        rows[0]@.len() as int
    } else {
        0
    }
}

/// The font draws every character of the grid.
pub open spec fn all_drawn_by(rows: Seq<Vec<char>>, font: Font) -> bool {
    forall|y: int, x: int|
        0 <= y < rows.len() && 0 <= x < rows[y]@.len() ==> font.drawn_by(#[trigger] rows[y]@[x])
}

/// Whether a grid can be drawn with a font: its rows are equally long, the
/// font draws every character, and the picture has no more pixels than a
/// machine word counts.
pub open spec fn drawable_with(rows: Seq<Vec<char>>, font: Font) -> bool {
    &&& rectangular_rows(rows, columns(rows))
    &&& all_drawn_by(rows, font)
    &&& picture_fits(columns(rows), rows.len() as int, font)
}

/// The picture of a grid of `n_cols` × `n_rows` characters is no wider and
/// no higher than a machine word counts, and has no more pixels either.
pub open spec fn picture_fits(n_cols: int, n_rows: int, font: Font) -> bool {
    &&& n_cols * font.width <= usize::MAX
    &&& n_rows * font.height <= usize::MAX
    &&& (n_cols * font.width) * (n_rows * font.height) <= usize::MAX
}

/// The sample of the picture of a grid at `(x, y)`: the sample of the glyph
/// of the cell the pixel lies in, at the pixel's place inside the cell.
pub open spec fn drawn_sample(rows: Seq<Vec<char>>, font: Font, x: int, y: int) -> i32 {
    let c = rows[y / (font.height as int)]@[x / (font.width as int)];
    font.chars@[font.glyph_of(c)].bitmap@[flat(
        font.width as int,
        x % (font.width as int),
        y % (font.height as int),
    )]
}

/// The place in the font of the glyph of every cell, row by row; `None`
/// where the font does not draw one of the characters.
fn cell_glyphs(char_rows: &[Vec<char>], font: &Font, n_cols: usize) -> (r: Option<Vec<usize>>)
    requires
        rectangular_rows(char_rows@, n_cols as int),
        char_rows@.len() * n_cols <= usize::MAX,
    ensures
        r.is_some() <==> all_drawn_by(char_rows@, *font),
        r matches Some(v) ==> v@.len() == char_rows@.len() * n_cols && forall|i: int|
            0 <= i < v@.len() ==> font.draws(
                char_rows@[i / (n_cols as int)]@[i % (n_cols as int)],
                (#[trigger] v@[i]) as int,
            ) && v@[i] == font.glyph_of(char_rows@[i / (n_cols as int)]@[i % (n_cols as int)]),
{
    let n_rows: usize = char_rows.len();
    let count: usize = n_rows * n_cols;
    let mut out: Vec<usize> = Vec::new();
    let mut i: usize = 0;
    while i < count
        invariant
            rectangular_rows(char_rows@, n_cols as int),
            n_rows == char_rows@.len(),
            count == n_rows * n_cols,
            i <= count,
            out@.len() == i,
            forall|j: int|
                0 <= j < i ==> font.draws(
                    char_rows@[j / (n_cols as int)]@[j % (n_cols as int)],
                    (#[trigger] out@[j]) as int,
                ) && out@[j] == font.glyph_of(char_rows@[j / (n_cols as int)]@[j % (n_cols as int)]),
        decreases count - i,
    {
        proof {
            assert(n_rows * n_cols == n_cols * n_rows) by (nonlinear_arith);
            lemma_cell_of(n_cols as int, n_rows as int, i as int);
        }
        let c: char = char_rows[i / n_cols][i % n_cols];
        match font.glyph(c) {
            Some(g) => {
                out.push(g);
            },
            None => {
                return None;
            },
        }
        i = i + 1;
    }
    proof {
        assert forall|y: int, x: int|
            0 <= y < char_rows@.len() && 0 <= x < char_rows@[y]@.len() implies font.drawn_by(
            #[trigger] char_rows@[y]@[x],
        ) by {
            crate::image::lemma_flat_in_range(n_cols as int, n_rows as int, x, y);
            let j = flat(n_cols as int, x, y);
            assert(font.draws(char_rows@[j / (n_cols as int)]@[j % (n_cols as int)], out@[j] as int));
        }
    }
    Some(out)
}

/// Decides `rectangular_rows` for the number of columns of the grid, which
/// it hands back.
fn grid_columns(char_rows: &[Vec<char>]) -> (r: Option<usize>)
    ensures
        r.is_some() <==> rectangular_rows(char_rows@, columns(char_rows@)),
        r matches Some(n) ==> n == columns(char_rows@),
{
    let n_rows: usize = char_rows.len();
    if n_rows == 0 {
        return Some(0);
    }
    let n_cols: usize = char_rows[0].len();
    let mut y: usize = 0;
    while y < n_rows
        invariant
            n_rows == char_rows@.len(),
            n_rows > 0,
            n_cols == char_rows@[0]@.len(),
            y <= n_rows,
            forall|j: int| 0 <= j < y ==> (#[trigger] char_rows@[j])@.len() == n_cols,
        decreases n_rows - y,
    {
        if char_rows[y].len() != n_cols {
            proof {
                assert((char_rows@[y as int])@.len() != n_cols);
            }
            return None;
        }
        y = y + 1;
    }
    Some(n_cols)
}

/// The width and the height of the picture of a grid, where the picture
/// has no more pixels than a machine word counts.
fn picture_size(n_cols: usize, n_rows: usize, font: &Font) -> (r: Option<(usize, usize)>)
    ensures
        r.is_some() <==> picture_fits(n_cols as int, n_rows as int, *font),
        r matches Some(size) ==> size.0 == n_cols * font.width && size.1 == n_rows * font.height,
{
    assert(0 <= n_cols * font.width <= 0xffff_ffff_ffff_ffff * 0xffff_ffff_ffff_ffff && 0 <= n_rows
        * font.height <= 0xffff_ffff_ffff_ffff * 0xffff_ffff_ffff_ffff) by (nonlinear_arith)
        requires
            0 <= n_cols <= 0xffff_ffff_ffff_ffff,
            0 <= n_rows <= 0xffff_ffff_ffff_ffff,
            0 <= font.width <= 0xffff_ffff_ffff_ffff,
            0 <= font.height <= 0xffff_ffff_ffff_ffff,
    ;
    let wide: u128 = (n_cols as u128) * (font.width as u128);
    let high: u128 = (n_rows as u128) * (font.height as u128);
    let limit: u128 = usize::MAX as u128;
    if wide > limit || high > limit {
        return None;
    }
    match (wide as usize).checked_mul(high as usize) {
        Some(_) => Some((wide as usize, high as usize)),
        None => None,
    }
}

/// The picture of a grid in gray: every character drawn with its glyph.
/// `None` exactly where the grid is not `drawable_with` the font.
pub fn char_rows_to_bitmap(char_rows: &[Vec<char>], font: &Font) -> (r: Option<LumaImage<u8>>)
    requires
        font.wf(),
    ensures
        r.is_some() <==> drawable_with(char_rows@, *font),
        r matches Some(img) ==> {
            &&& img.wf()
            &&& img.spec_width() == columns(char_rows@) * font.width
            &&& img.spec_height() == char_rows@.len() * font.height
            &&& forall|i: int|
                0 <= i < img@.len() ==> #[trigger] img@[i] == gray_level(
                    drawn_sample(
                        char_rows@,
                        *font,
                        i % (img.spec_width() as int),
                        i / (img.spec_width() as int),
                    ),
                )
        },
{
    let n_rows: usize = char_rows.len();
    let n_cols: usize = match grid_columns(char_rows) {
        Some(n) => n,
        None => {
            return None;
        },
    };
    let (width, height) = match picture_size(n_cols, n_rows, font) {
        Some(size) => size,
        None => {
            return None;
        },
    };
    proof {
        crate::font::lemma_font_has_area(*font);
        assert(n_rows * n_cols <= (n_cols * font.width) * (n_rows * font.height)) by (nonlinear_arith)
            requires
                font.width >= 1,
                font.height >= 1,
                0 <= n_rows,
                0 <= n_cols,
        ;
    }
    let glyphs: Vec<usize> = match cell_glyphs(char_rows, font, n_cols) {
        Some(v) => v,
        None => {
            return None;
        },
    };
    let count: usize = width * height;
    let mut data: Vec<u8> = Vec::new();
    let mut i: usize = 0;
    while i < count
        invariant
            font.wf(),
            font.width > 0,
            font.height > 0,
            n_rows == char_rows@.len(),
            n_cols == columns(char_rows@),
            rectangular_rows(char_rows@, n_cols as int),
            width == n_cols * font.width,
            height == n_rows * font.height,
            count == width * height,
            glyphs@.len() == n_rows * n_cols,
            forall|j: int|
                0 <= j < glyphs@.len() ==> font.draws(
                    char_rows@[j / (n_cols as int)]@[j % (n_cols as int)],
                    (#[trigger] glyphs@[j]) as int,
                ) && glyphs@[j] == font.glyph_of(char_rows@[j / (n_cols as int)]@[j % (n_cols as int)]),
            i <= count,
            data@.len() == i,
            forall|j: int|
                0 <= j < i ==> #[trigger] data@[j] == gray_level(
                    drawn_sample(char_rows@, *font, j % (width as int), j / (width as int)),
                ),
        decreases count - i,
    {
        let sample: i32 = picture_sample(char_rows, font, &glyphs, n_cols, width, height, i);
        data.push(gray_byte(sample));
        i = i + 1;
    }
    LumaImage::from_pixels(width, height, data)
}

/// The sample of the picture of a grid at place `i`.
fn picture_sample(
    char_rows: &[Vec<char>],
    font: &Font,
    glyphs: &Vec<usize>,
    n_cols: usize,
    width: usize,
    height: usize,
    i: usize,
) -> (r: i32)
    requires
        font.wf(),
        font.width > 0,
        font.height > 0,
        rectangular_rows(char_rows@, n_cols as int),
        width == n_cols * font.width,
        height == char_rows@.len() * font.height,
        i < width * height,
        glyphs@.len() == char_rows@.len() * n_cols,
        forall|j: int|
            0 <= j < glyphs@.len() ==> font.draws(
                char_rows@[j / (n_cols as int)]@[j % (n_cols as int)],
                (#[trigger] glyphs@[j]) as int,
            ) && glyphs@[j] == font.glyph_of(char_rows@[j / (n_cols as int)]@[j % (n_cols as int)]),
    ensures
        r == drawn_sample(char_rows@, *font, (i % width) as int, (i / width) as int),
        0 <= r <= UNIT,
{
    let n_rows: usize = char_rows.len();
    proof {
        lemma_cell_of(width as int, height as int, i as int);
    }
    let x: usize = i % width;
    let y: usize = i / width;
    proof {
        vstd::arithmetic::div_mod::lemma_fundamental_div_mod(x as int, font.width as int);
        vstd::arithmetic::div_mod::lemma_fundamental_div_mod(y as int, font.height as int);
        vstd::arithmetic::div_mod::lemma_mod_bound(x as int, font.width as int);
        vstd::arithmetic::div_mod::lemma_mod_bound(y as int, font.height as int);
        assert(n_cols * font.width == font.width * n_cols) by (nonlinear_arith);
        assert(n_rows * font.height == font.height * n_rows) by (nonlinear_arith);
        vstd::arithmetic::div_mod::lemma_multiply_divide_lt(x as int, font.width as int, n_cols as int);
        vstd::arithmetic::div_mod::lemma_multiply_divide_lt(y as int, font.height as int, n_rows as int);
        vstd::arithmetic::div_mod::lemma_div_pos_is_pos(x as int, font.width as int);
        vstd::arithmetic::div_mod::lemma_div_pos_is_pos(y as int, font.height as int);
    }
    let cx: usize = x / font.width;
    let cy: usize = y / font.height;
    let cells: usize = glyphs.len();
    proof {
        crate::image::lemma_flat_in_range(n_cols as int, n_rows as int, cx as int, cy as int);
        assert(n_rows * n_cols == n_cols * n_rows) by (nonlinear_arith);
    }
    let cell: usize = n_cols * cy + cx;
    let g: usize = glyphs[cell];
    let glyph = &font.chars[g];
    proof {
        let v = crate::font::views(font.chars@);
        assert(v[g as int] == font.chars@[g as int]@);
        crate::image::lemma_flat_in_range(
            font.width as int,
            font.height as int,
            (x % font.width) as int,
            (y % font.height) as int,
        );
    }
    glyph.bitmap[font.width * (y % font.height) + x % font.width]
}

/// A colour sample of a pixel of a glyph: the colour with the pixel's alpha
/// applied, as bright as the glyph is at the place.
pub open spec fn tinted(c: u8, a: u8, sample: i32) -> u8 {
    ((c as int * a as int * sample as int) / (255 * UNIT as int)) as u8
}

fn tint(c: u8, a: u8, sample: i32) -> (r: u8)
    requires
        0 <= sample <= UNIT,
    ensures
        r == tinted(c, a, sample),
{
    assert(0 <= c * a <= 255 * 255) by (nonlinear_arith)
        requires
            0 <= c <= 255,
            0 <= a <= 255,
    ;
    let weight: i64 = (c as i64) * (a as i64);
    assert(0 <= weight * sample <= 65025 * 65536) by (nonlinear_arith)
        requires
            0 <= weight <= 65025,
            0 <= sample <= 65536,
    ;
    let scaled: i64 = weight * (sample as i64);
    proof {
        vstd::arithmetic::div_mod::lemma_multiply_divide_le(scaled as int, 16711680, 255);
        vstd::arithmetic::div_mod::lemma_div_pos_is_pos(scaled as int, 16711680);
    }
    (scaled / 16711680) as u8
}

/// The colour picture of a grid has sides that 32 bits count, and no more
/// bytes than a machine word counts.
pub open spec fn color_picture_fits(n_cols: int, n_rows: int, font: Font) -> bool {
    &&& n_cols * font.width <= u32::MAX
    &&& n_rows * font.height <= u32::MAX
    &&& 4 * ((n_cols * font.width) * (n_rows * font.height)) <= usize::MAX
}

/// The bytes of the pixel at place `i` of the colour picture of a grid:
/// red, green and blue of the colour of the cell, tinted by the glyph, and
/// full alpha.
pub open spec fn tinted_pixel(rows: Seq<Vec<char>>, font: Font, colors: ColorImage, i: int) -> Rgba {
    let width = columns(rows) * font.width;
    let x = i % width;
    let y = i / width;
    let p = colors.pixel(flat(columns(rows), x / (font.width as int), y / (font.height as int)));
    let sample = drawn_sample(rows, font, x, y);
    Rgba { r: tinted(p.r, p.a, sample), g: tinted(p.g, p.a, sample), b: tinted(p.b, p.a, sample), a: 255 }
}

/// The picture of a grid in colour, every character drawn with its glyph
/// in the colour of the pixel at its place in `colors`, which has one pixel
/// for each character. `None` exactly where the font does not draw one of
/// the characters or the picture does not fit.
pub fn color_bitmap(char_rows: &[Vec<char>], font: &Font, colors: &ColorImage) -> (r: Option<ColorImage>)
    requires
        font.wf(),
        colors.wf(),
        colors.spec_height() == char_rows@.len(),
        colors.spec_width() == columns(char_rows@),
        rectangular_rows(char_rows@, colors.spec_width() as int),
    ensures
        r.is_some() <==> all_drawn_by(char_rows@, *font) && color_picture_fits(
            columns(char_rows@),
            char_rows@.len() as int,
            *font,
        ),
        r matches Some(img) ==> {
            &&& img.wf()
            &&& img.spec_width() == columns(char_rows@) * font.width
            &&& img.spec_height() == char_rows@.len() * font.height
            &&& forall|i: int|
                0 <= i < img.spec_width() * img.spec_height() ==> #[trigger] img.pixel(i)
                    == tinted_pixel(char_rows@, *font, *colors, i)
        },
{
    proof {
        colors.lemma_wf();
        crate::font::lemma_font_has_area(*font);
    }
    let n_rows: usize = char_rows.len();
    let n_cols: usize = colors.width() as usize;
    let (width, height) = match picture_size(n_cols, n_rows, font) {
        Some(size) => size,
        None => {
            return None;
        },
    };
    if width > 0xffff_ffff || height > 0xffff_ffff {
        return None;
    }
    let count: usize = width * height;
    if count > usize::MAX / 4 {
        return None;
    }
    proof {
        assert(n_rows * n_cols <= (n_cols * font.width) * (n_rows * font.height)) by (nonlinear_arith)
            requires
                font.width >= 1,
                font.height >= 1,
                0 <= n_rows,
                0 <= n_cols,
        ;
    }
    let glyphs: Vec<usize> = match cell_glyphs(char_rows, font, n_cols) {
        Some(v) => v,
        None => {
            return None;
        },
    };
    let cells: usize = glyphs.len();
    let mut data: Vec<u8> = Vec::new();
    let mut i: usize = 0;
    while i < count
        invariant
            font.wf(),
            colors.wf(),
            cells == glyphs@.len(),
            font.width > 0,
            font.height > 0,
            n_rows == char_rows@.len(),
            n_cols == columns(char_rows@),
            n_cols == colors.spec_width(),
            n_rows == colors.spec_height(),
            rectangular_rows(char_rows@, n_cols as int),
            width == n_cols * font.width,
            height == n_rows * font.height,
            count == width * height,
            4 * count <= usize::MAX,
            glyphs@.len() == n_rows * n_cols,
            forall|j: int|
                0 <= j < glyphs@.len() ==> font.draws(
                    char_rows@[j / (n_cols as int)]@[j % (n_cols as int)],
                    (#[trigger] glyphs@[j]) as int,
                ) && glyphs@[j] == font.glyph_of(char_rows@[j / (n_cols as int)]@[j % (n_cols as int)]),
            i <= count,
            data@.len() == 4 * i,
            forall|j: int|
                0 <= j < i ==> (#[trigger] tinted_pixel(char_rows@, *font, *colors, j)) == (Rgba {
                    r: data@[4 * j],
                    g: data@[4 * j + 1],
                    b: data@[4 * j + 2],
                    a: data@[4 * j + 3],
                }),
        decreases count - i,
    {
        let sample: i32 = picture_sample(char_rows, font, &glyphs, n_cols, width, height, i);
        proof {
            lemma_cell_of(width as int, height as int, i as int);
        }
        let x: usize = i % width;
        let y: usize = i / width;
        proof {
            assert(n_cols * font.width == font.width * n_cols) by (nonlinear_arith);
            assert(n_rows * font.height == font.height * n_rows) by (nonlinear_arith);
            vstd::arithmetic::div_mod::lemma_multiply_divide_lt(x as int, font.width as int, n_cols as int);
            vstd::arithmetic::div_mod::lemma_multiply_divide_lt(y as int, font.height as int, n_rows as int);
            vstd::arithmetic::div_mod::lemma_div_pos_is_pos(x as int, font.width as int);
            vstd::arithmetic::div_mod::lemma_div_pos_is_pos(y as int, font.height as int);
            crate::image::lemma_flat_in_range(
                n_cols as int,
                n_rows as int,
                x as int / font.width as int,
                y as int / font.height as int,
            );
            assert(n_rows * n_cols == n_cols * n_rows) by (nonlinear_arith);
        }
        let p: Rgba = colors.pixel_at(n_cols * (y / font.height) + x / font.width);
        let ghost before = data@;
        data.push(tint(p.r, p.a, sample));
        data.push(tint(p.g, p.a, sample));
        data.push(tint(p.b, p.a, sample));
        data.push(255);
        proof {
            assert forall|j: int| 0 <= j < i implies (#[trigger] tinted_pixel(
                char_rows@,
                *font,
                *colors,
                j,
            )) == (Rgba {
                r: data@[4 * j],
                g: data@[4 * j + 1],
                b: data@[4 * j + 2],
                a: data@[4 * j + 3],
            }) by {
                assert(data@[4 * j] == before[4 * j]);
                assert(data@[4 * j + 1] == before[4 * j + 1]);
                assert(data@[4 * j + 2] == before[4 * j + 2]);
                assert(data@[4 * j + 3] == before[4 * j + 3]);
            }
        }
        i = i + 1;
    }
    ColorImage::from_rgba(width as u32, height as u32, data)
}

/// The picture of a grid in colour, every character drawn with its glyph
/// in the colour of the image at its place.
pub fn char_rows_to_color_bitmap(char_rows: &[Vec<char>], font: &Font, img: &ColorImage) -> (r: Option<
    ColorImage,
>)
    requires
        font.wf(),
        paintable(char_rows@, *img),
    ensures
        r.is_some() <==> all_drawn_by(char_rows@, *font) && color_picture_fits(
            columns(char_rows@),
            char_rows@.len() as int,
            *font,
        ),
        r matches Some(picture) ==> exists|colors: ColorImage|
            {
                &&& colors.wf()
                &&& colors.spec_width() == columns(char_rows@)
                &&& colors.spec_height() == char_rows@.len()
                &&& colors@ == nearest_resampled(
                    img@,
                    img.spec_width(),
                    img.spec_height(),
                    columns(char_rows@) as nat,
                    char_rows@.len() as nat,
                )
                &&& picture.wf()
                &&& picture.spec_width() == columns(char_rows@) * font.width
                &&& picture.spec_height() == char_rows@.len() * font.height
                &&& forall|i: int|
                    0 <= i < picture.spec_width() * picture.spec_height() ==> #[trigger] picture.pixel(i)
                        == tinted_pixel(char_rows@, *font, colors, i)
            },
{
    let colors: ColorImage = cell_colors(char_rows, img);
    color_bitmap(char_rows, font, &colors)
}

/// Two blocks for a lit pixel and two blanks for a dark one.
pub open spec fn pixel_text(sample: i32) -> Seq<char> {
    if sample > 0 {
        seq!['█', '█']
    } else {
        seq![' ', ' ']
    }
}

/// The texts of the pixels of a glyph, row by row.
pub open spec fn pixel_texts(c: Character) -> Seq<Seq<char>> {
    Seq::new(c.bitmap@.len(), |i: int| pixel_text(c.bitmap@[i]))
}

/// The rows of a glyph as lines, each ended by a line feed.
pub open spec fn glyph_lines(c: Character) -> Seq<Seq<char>> {
    Seq::new(
        c.height as nat,
        |y: int| run(pixel_texts(c), y * c.width, y * c.width + c.width) + seq!['\n'],
    )
}

/// A glyph as text: the character it draws on a line of its own, then its
/// rows.
pub open spec fn glyph_text(c: Character) -> Seq<char> {
    seq![c.value, '\n'] + run(glyph_lines(c), 0, c.height as int)
}

/// All the glyphs of a font as text, one after the other.
pub open spec fn font_text(font: Font) -> Seq<char> {
    run(Seq::new(font.chars@.len(), |i: int| glyph_text(font.chars@[i])), 0, font.chars@.len() as int)
}

fn push_glyph(out: &mut String, c: &Character)
    requires
        c.wf(),
    ensures
        final(out)@ == old(out)@ + glyph_text(*c),
{
    let ghost start = out@;
    out.push(c.value);
    out.push('\n');
    let ghost head = out@;
    assert(head =~= start + seq![c.value, '\n']);
    let ghost lines_of = glyph_lines(*c);
    let ghost cells = pixel_texts(*c);
    let mut y: usize = 0;
    while y < c.height
        invariant
            c.wf(),
            lines_of == glyph_lines(*c),
            cells == pixel_texts(*c),
            y <= c.height,
            out@ == head + run(lines_of, 0, y as int),
        decreases c.height - y,
    {
        let ghost row_start = out@;
        proof {
            assert(0 <= y * c.width && y * c.width + c.width <= c.height * c.width) by (nonlinear_arith)
                requires
                    0 <= y < c.height,
                    0 <= c.width,
            ;
            assert(c.height * c.width == c.width * c.height) by (nonlinear_arith);
        }
        let first: usize = y * c.width;
        let mut x: usize = 0;
        while x < c.width
            invariant
                c.wf(),
                cells == pixel_texts(*c),
                first + c.width <= c.bitmap@.len(),
                x <= c.width,
                out@ == row_start + run(cells, first as int, first + x),
            decreases c.width - x,
        {
            let ghost before = out@;
            if c.bitmap[first + x] > 0 {
                out.push('█');
                out.push('█');
            } else {
                out.push(' ');
                out.push(' ');
            }
            proof {
                assert(out@ =~= before + cells[first + x]);
                assert(row_start + run(cells, first as int, first + x) + cells[first + x] =~= row_start
                    + (run(cells, first as int, first + x) + cells[first + x]));
            }
            x = x + 1;
        }
        out.push('\n');
        proof {
            let line = run(cells, first as int, first + c.width) + seq!['\n'];
            assert(lines_of[y as int] == line);
            assert(out@ =~= row_start + line);
            assert(head + run(lines_of, 0, y as int) + line =~= head + (run(lines_of, 0, y as int) + line));
        }
        y = y + 1;
    }
    proof {
        assert(head + run(lines_of, 0, c.height as int) =~= start + (seq![c.value, '\n'] + run(
            lines_of,
            0,
            c.height as int,
        )));
    }
}

/// All the glyphs of a font as text: of each the character it draws, then
/// its rows with two blocks for every lit pixel.
pub fn font_to_string(font: &Font) -> (r: String)
    requires
        font.wf(),
    ensures
        r@ == font_text(*font),
{
    let n: usize = font.chars.len();
    let ghost texts_of = Seq::new(font.chars@.len(), |i: int| glyph_text(font.chars@[i]));
    let mut out: String = String::new();
    let mut i: usize = 0;
    while i < n
        invariant
            font.wf(),
            n == font.chars@.len(),
            texts_of == Seq::new(font.chars@.len(), |i: int| glyph_text(font.chars@[i])),
            i <= n,
            out@ == run(texts_of, 0, i as int),
        decreases n - i,
    {
        push_glyph(&mut out, &font.chars[i]);
        i = i + 1;
    }
    out
}

} // verus!
