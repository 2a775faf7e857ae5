//! Glyphs, the features derived from their bitmaps, and the font that holds
//! them.

use vstd::prelude::*;
use crate::fixed::{
    clamp_sample, div_toward_zero, lemma_sum_to_bounds, product_bound, saturate,
    sum_to, trunc_div, UNIT,
};
use crate::image::{
    grid_sum, grid_total, kernel_columns, lemma_cell_of, rectangular, rows_of,
};
use crate::metrics::{sum_samples, total};

verus! {

/// The largest number of pixels a glyph may have.
pub const MAX_AREA: usize = 0x7fff_ffff;

/// What a glyph is made from: the character it draws and its bitmap.
pub struct GlyphView {
    pub value: char,
    pub bitmap: Seq<i32>,
    pub width: nat,
    pub height: nat,
}

/// One glyph of a font with the features derived from its bitmap.
pub struct Character {
    pub value: char,
    pub bitmap: Vec<i32>,
    pub width: usize,
    pub height: usize,
    pub intensity: i64,
    pub grad: (usize, usize),
    pub direction: (i32, i32),
}

impl View for Character {
    type V = GlyphView;

    open spec fn view(&self) -> GlyphView {
        GlyphView {
            value: self.value,
            bitmap: self.bitmap@,
            width: self.width as nat,
            height: self.height as nat,
        }
    }
}

impl Clone for Character {
    fn clone(&self) -> (r: Self)
        ensures
            r@ == self@,
            r.intensity == self.intensity,
            r.grad == self.grad,
            r.direction == self.direction,
    {
        let bitmap: Vec<i32> = self.bitmap.clone();
        assert(bitmap@ =~= self.bitmap@);
        Character {
            value: self.value,
            bitmap,
            width: self.width,
            height: self.height,
            intensity: self.intensity,
            grad: self.grad,
            direction: self.direction,
        }
    }
}

/// A bitmap a glyph can be made from: one sample between 0 and `UNIT` for
/// each of its `width * height` pixels, which are at most `MAX_AREA`.
pub open spec fn bitmap_fits(bitmap: Seq<i32>, width: int, height: int) -> bool {
    &&& 0 <= width
    &&& 0 <= height
    &&& bitmap.len() == width * height
    &&& width * height <= MAX_AREA
    &&& forall|i: int| 0 <= i < bitmap.len() ==> 0 <= #[trigger] bitmap[i] <= UNIT
}

/// 1 where the pixel to the right of place `i` is strictly brighter.
pub open spec fn rising_right(bitmap: Seq<i32>, width: int) -> spec_fn(int) -> int {
    |i: int|
        if i % width + 1 < width && bitmap[i + 1] > bitmap[i] {
            1int
        } else {
            0int
        }
}

/// 1 where the pixel below place `i` is strictly brighter.
pub open spec fn rising_down(bitmap: Seq<i32>, width: int, height: int) -> spec_fn(int) -> int {
    |i: int|
        if i + width < width * height && bitmap[i + width] > bitmap[i] {
            1int
        } else {
            0int
        }
}

/// How many pixels have a strictly brighter right neighbour, and how many a
/// strictly brighter neighbour below.
pub open spec fn gradient(bitmap: Seq<i32>, width: int, height: int) -> (int, int) {
    (
        sum_to(rising_right(bitmap, width), width * height),
        sum_to(rising_down(bitmap, width, height), width * height),
    )
}

/// The kernel that weighs a pixel's surroundings: the pixel, its right
/// neighbour and the three pixels below.
pub open spec fn weight_kernel() -> Seq<Seq<i32>> {
    seq![seq![0i32, 0i32, 0i32], seq![0i32, 1i32, 1i32], seq![1i32, 1i32, 1i32]]
}

/// The kernel of the horizontal offsets of those surroundings.
pub open spec fn x_kernel() -> Seq<Seq<i32>> {
    seq![seq![0i32, 0i32, 0i32], seq![0i32, 0i32, 1i32], seq![-1i32, 0i32, 1i32]]
}

/// The kernel of the vertical offsets of those surroundings.
pub open spec fn y_kernel() -> Seq<Seq<i32>> {
    seq![seq![0i32, 0i32, 0i32], seq![0i32, 0i32, 0i32], seq![1i32, 1i32, 1i32]]
}

/// What a masked convolution leaves at place `i`: the kernel's weighted sum
/// where the pixel itself is not zero, and nothing where it is.
pub open spec fn masked_term(bitmap: Seq<i32>, width: int, height: int, kernel: Seq<Seq<i32>>) -> spec_fn(
    int,
) -> int {
    |i: int|
        if bitmap[i] != 0 {
            grid_sum(bitmap, width, height, i % width, i / width, kernel)
        } else {
            0
        }
}

/// The sum of a masked convolution over the whole bitmap.
pub open spec fn masked_total(bitmap: Seq<i32>, width: int, height: int, kernel: Seq<Seq<i32>>) -> int {
    sum_to(masked_term(bitmap, width, height, kernel), width * height)
}

/// One component of the direction: `part / whole` in fixed point.
pub open spec fn direction_component(part: int, whole: int) -> int {
    clamp_sample(trunc_div(part * UNIT, whole))
}

/// The direction a bitmap faces: the summed horizontal and vertical offsets
/// of the surroundings of its lit pixels, each divided by their summed
/// weight; `(0, 0)` where that weight is zero.
pub open spec fn facing(bitmap: Seq<i32>, width: int, height: int) -> (int, int) {
    let whole = masked_total(bitmap, width, height, weight_kernel());
    if whole == 0 {
        (0, 0)
    } else {
        (
            direction_component(masked_total(bitmap, width, height, x_kernel()), whole),
            direction_component(masked_total(bitmap, width, height, y_kernel()), whole),
        )
    }
}

/// A masked convolution: for every pixel that is not zero the weighted sum
/// of its surroundings, and zero for the others.
fn masked_discrete_convolution_2d(
    bitmap: &Vec<i32>,
    width: usize,
    height: usize,
    kernel: &[Vec<i32>],
) -> (r: Vec<i128>)
    requires
        bitmap@.len() == width * height <= usize::MAX,
        rectangular(rows_of(kernel@)),
    ensures
        r@.len() == bitmap@.len(),
        forall|i: int|
            0 <= i < r@.len() ==> #[trigger] r@[i] == masked_term(
                bitmap@,
                width as int,
                height as int,
                rows_of(kernel@),
            )(i),
        forall|i: int|
            0 <= i < r@.len() ==> -(kernel@.len() * kernel_columns(rows_of(kernel@))
                * product_bound()) <= #[trigger] r@[i] <= kernel@.len() * kernel_columns(
                rows_of(kernel@),
            ) * product_bound(),
{
    let n: usize = bitmap.len();
    let ghost f = masked_term(bitmap@, width as int, height as int, rows_of(kernel@));
    let ghost cap = kernel@.len() * kernel_columns(rows_of(kernel@)) * product_bound();
    let mut out: Vec<i128> = Vec::new();
    let mut i: usize = 0;
    proof {
        assert(0 <= cap) by (nonlinear_arith)
            requires
                cap == kernel@.len() * kernel_columns(rows_of(kernel@)) * product_bound(),
                0 <= kernel@.len(),
                0 <= kernel_columns(rows_of(kernel@)),
                0 <= product_bound(),
        ;
    }
    while i < n
        invariant
            n == bitmap@.len(),
            bitmap@.len() == width * height <= usize::MAX,
            rectangular(rows_of(kernel@)),
            f == masked_term(bitmap@, width as int, height as int, rows_of(kernel@)),
            cap == kernel@.len() * kernel_columns(rows_of(kernel@)) * product_bound(),
            0 <= cap,
            i <= n,
            out@.len() == i,
            forall|j: int| 0 <= j < i ==> #[trigger] out@[j] == f(j),
            forall|j: int| 0 <= j < i ==> -cap <= #[trigger] out@[j] <= cap,
        decreases n - i,
    {
        if bitmap[i] != 0 {
            proof {
                lemma_cell_of(width as int, height as int, i as int);
            }
            let v: i128 = grid_total(bitmap, width, height, i % width, i / width, kernel);
            out.push(v);
        } else {
            out.push(0);
        }
        i = i + 1;
    }
    out
}

pub open spec fn wide_term(values: Seq<i128>) -> spec_fn(int) -> int {
    |i: int| values[i] as int
}

/// The sum of the values of a convolution.
fn sum_2d(values: &Vec<i128>, Ghost(cap): Ghost<int>) -> (r: i128)
    requires
        0 <= cap,
        values@.len() * cap <= 0x3fff_ffff_ffff_ffff_ffff_ffff_ffff_ffff,
        forall|i: int| 0 <= i < values@.len() ==> -cap <= #[trigger] values@[i] <= cap,
    ensures
        r == sum_to(wide_term(values@), values@.len() as int),
        -(values@.len() * cap) <= r <= values@.len() * cap,
{
    let n: usize = values.len();
    let ghost f = wide_term(values@);
    let mut acc: i128 = 0;
    let mut i: usize = 0;
    while i < n
        invariant
            n == values@.len(),
            0 <= cap,
            n * cap <= 0x3fff_ffff_ffff_ffff_ffff_ffff_ffff_ffff,
            forall|j: int| 0 <= j < values@.len() ==> -cap <= #[trigger] values@[j] <= cap,
            f == wide_term(values@),
            i <= n,
            acc == sum_to(f, i as int),
            -(i * cap) <= acc <= i * cap,
        decreases n - i,
    {
        proof {
            assert((i + 1) * cap == i * cap + cap) by (nonlinear_arith);
            assert((i + 1) * cap <= n * cap) by (nonlinear_arith)
                requires
                    i + 1 <= n,
                    0 <= cap,
            ;
        }
        acc = acc + values[i];
        i = i + 1;
    }
    acc
}

/// The sum of a masked convolution with one of the three direction kernels.
fn masked_sum(bitmap: &Vec<i32>, width: usize, height: usize, kernel: &[Vec<i32>]) -> (r: i128)
    requires
        bitmap_fits(bitmap@, width as int, height as int),
        rectangular(rows_of(kernel@)),
        kernel@.len() == 3,
        kernel_columns(rows_of(kernel@)) == 3,
    ensures
        r == masked_total(bitmap@, width as int, height as int, rows_of(kernel@)),
        -0x4_8000_0000_0000_0000_0000_0000 <= r <= 0x4_8000_0000_0000_0000_0000_0000,
{
    let values: Vec<i128> = masked_discrete_convolution_2d(bitmap, width, height, kernel);
    let ghost cap: int = 9 * product_bound();
    proof {
        assert(kernel@.len() * kernel_columns(rows_of(kernel@)) * product_bound() == cap)
            by (nonlinear_arith)
            requires
                kernel@.len() == 3,
                kernel_columns(rows_of(kernel@)) == 3,
                cap == 9 * product_bound(),
        ;
        assert(values@.len() * cap <= 0x7fff_ffff * cap) by (nonlinear_arith)
            requires
                values@.len() <= 0x7fff_ffff,
                0 <= cap,
        ;
        assert(0 <= values@.len() * cap) by (nonlinear_arith)
            requires
                0 <= values@.len(),
                0 <= cap,
        ;
        crate::fixed::lemma_sum_to_agree(
            wide_term(values@),
            masked_term(bitmap@, width as int, height as int, rows_of(kernel@)),
            values@.len() as int,
        );
    }
    sum_2d(&values, Ghost(cap))
}

impl Character {
    /// The bitmap is one the glyph could have been made from, and every
    /// derived feature is the one its bitmap gives.
    pub open spec fn wf(&self) -> bool {
        &&& bitmap_fits(self.bitmap@, self.width as int, self.height as int)
        &&& self.intensity == total(self.bitmap@)
        &&& self.grad.0 == gradient(self.bitmap@, self.width as int, self.height as int).0
        &&& self.grad.1 == gradient(self.bitmap@, self.width as int, self.height as int).1
        &&& self.direction.0 == facing(self.bitmap@, self.width as int, self.height as int).0
        &&& self.direction.1 == facing(self.bitmap@, self.width as int, self.height as int).1
    }

    /// Decides whether a glyph can be made from `bitmap`.
    pub fn fits(bitmap: &[i32], width: usize, height: usize) -> (r: bool)
        ensures
            r == bitmap_fits(bitmap@, width as int, height as int),
    {
        let area: Option<usize> = width.checked_mul(height);
        let n: usize = bitmap.len();
        match area {
            Some(a) => {
                if a != n || a > MAX_AREA {
                    return false;
                }
            },
            None => {
                return false;
            },
        }
        let mut i: usize = 0;
        while i < n
            invariant
                n == bitmap@.len(),
                i <= n,
                forall|j: int| 0 <= j < i ==> 0 <= #[trigger] bitmap@[j] <= UNIT,
            decreases n - i,
        {
            if bitmap[i] < 0 || bitmap[i] > UNIT {
                return false;
            }
            i = i + 1;
        }
        true
    }

    /// Makes a glyph and derives its features.
    pub fn new(value: char, bitmap: Vec<i32>, width: usize, height: usize) -> (r: Character)
        requires
            bitmap_fits(bitmap@, width as int, height as int),
        ensures
            r.wf(),
            r@ == (GlyphView { value, bitmap: bitmap@, width: width as nat, height: height as nat }),
    {
        let sum: i128 = sum_samples(bitmap.as_slice());
        proof {
            lemma_sum_to_bounds(
                crate::metrics::sample_term(bitmap@),
                bitmap@.len() as int,
                0,
                UNIT as int,
            );
            assert(bitmap@.len() * UNIT <= 0x7fff_ffff * 65536) by (nonlinear_arith)
                requires
                    bitmap@.len() <= 0x7fff_ffff,
                    UNIT == 65536,
            ;
        }
        let intensity: i64 = sum as i64;
        let grad: (usize, usize) = Character::grad(&bitmap, width, height);
        let direction: (i32, i32) = Character::direction(&bitmap, width, height);
        Character { value, bitmap, width, height, intensity, grad, direction }
    }

    fn grad(bitmap: &Vec<i32>, width: usize, height: usize) -> (r: (usize, usize))
        requires
            bitmap_fits(bitmap@, width as int, height as int),
        ensures
            r.0 == gradient(bitmap@, width as int, height as int).0,
            r.1 == gradient(bitmap@, width as int, height as int).1,
    {
        let n: usize = bitmap.len();
        let ghost f = rising_right(bitmap@, width as int);
        let ghost g = rising_down(bitmap@, width as int, height as int);
        let mut x_grad: usize = 0;
        let mut y_grad: usize = 0;
        let mut i: usize = 0;
        while i < n
            invariant
                n == bitmap@.len(),
                bitmap_fits(bitmap@, width as int, height as int),
                f == rising_right(bitmap@, width as int),
                g == rising_down(bitmap@, width as int, height as int),
                i <= n,
                x_grad == sum_to(f, i as int),
                y_grad == sum_to(g, i as int),
                x_grad <= i,
                y_grad <= i,
            decreases n - i,
        {
            proof {
                lemma_cell_of(width as int, height as int, i as int);
                if i % width + 1 < width {
                    crate::image::lemma_flat_in_range(
                        width as int,
                        height as int,
                        (i % width + 1) as int,
                        (i / width) as int,
                    );
                }
            }
            if i % width + 1 < width && bitmap[i + 1] > bitmap[i] {
                x_grad = x_grad + 1;
            }
            if width < n - i && bitmap[i + width] > bitmap[i] {
                y_grad = y_grad + 1;
            }
            i = i + 1;
        }
        (x_grad, y_grad)
    }

    fn direction(bitmap: &Vec<i32>, width: usize, height: usize) -> (r: (i32, i32))
        requires
            bitmap_fits(bitmap@, width as int, height as int),
        ensures
            r.0 == facing(bitmap@, width as int, height as int).0,
            r.1 == facing(bitmap@, width as int, height as int).1,
    {
        let mut total_kernel: Vec<Vec<i32>> = Vec::new();
        total_kernel.push(vec![0i32, 0i32, 0i32]);
        total_kernel.push(vec![0i32, 1i32, 1i32]);
        total_kernel.push(vec![1i32, 1i32, 1i32]);
        proof {
            let k = rows_of(total_kernel@);
            assert(k[0] =~= seq![0i32, 0i32, 0i32]);
            assert(k[1] =~= seq![0i32, 1i32, 1i32]);
            assert(k[2] =~= seq![1i32, 1i32, 1i32]);
            assert(k =~= weight_kernel());
        }
        let whole: i128 = masked_sum(bitmap, width, height, total_kernel.as_slice());
        proof {
            lemma_weight_not_negative(bitmap@, width as int, height as int);
        }
        if whole == 0 {
            return (0, 0);
        }
        let mut across: Vec<Vec<i32>> = Vec::new();
        across.push(vec![0i32, 0i32, 0i32]);
        across.push(vec![0i32, 0i32, 1i32]);
        across.push(vec![-1i32, 0i32, 1i32]);
        let mut down: Vec<Vec<i32>> = Vec::new();
        down.push(vec![0i32, 0i32, 0i32]);
        down.push(vec![0i32, 0i32, 0i32]);
        down.push(vec![1i32, 1i32, 1i32]);
        proof {
            let k = rows_of(across@);
            assert(k[0] =~= seq![0i32, 0i32, 0i32]);
            assert(k[1] =~= seq![0i32, 0i32, 1i32]);
            assert(k[2] =~= seq![-1i32, 0i32, 1i32]);
            assert(k =~= x_kernel());
            let d = rows_of(down@);
            assert(d[0] =~= seq![0i32, 0i32, 0i32]);
            assert(d[1] =~= seq![0i32, 0i32, 0i32]);
            assert(d[2] =~= seq![1i32, 1i32, 1i32]);
            assert(d =~= y_kernel());
        }
        let xs: i128 = masked_sum(bitmap, width, height, across.as_slice());
        let ys: i128 = masked_sum(bitmap, width, height, down.as_slice());
        (
            saturate(div_toward_zero(xs * 65536, whole)),
            saturate(div_toward_zero(ys * 65536, whole)),
        )
    }

    /// The sample in column `x` of row `y`.
    pub fn get(&self, x: usize, y: usize) -> (r: i32)
        requires
            self.wf(),
            x < self.width,
            y < self.height,
        ensures
            r == self.bitmap@[y * self.width + x],
    {
        proof {
            crate::image::lemma_flat_in_range(self.width as int, self.height as int, x as int, y as int);
            assert(y * self.width == self.width * y) by (nonlinear_arith);
        }
        self.bitmap[y * self.width + x]
    }
}

/// The summed weight of the surroundings of the lit pixels of a bitmap
/// without negative samples is not negative.
pub proof fn lemma_weight_not_negative(bitmap: Seq<i32>, width: int, height: int)
    requires
        0 <= width,
        0 <= height,
        bitmap.len() == width * height,
        forall|i: int| 0 <= i < bitmap.len() ==> 0 <= #[trigger] bitmap[i],
    ensures
        0 <= masked_total(bitmap, width, height, weight_kernel()),
{
    let k = weight_kernel();
    let f = masked_term(bitmap, width, height, k);
    assert forall|i: int| 0 <= i < width * height implies 0 <= #[trigger] f(i) by {
        if bitmap[i] != 0 {
            lemma_cell_of(width, height, i);
            let x = i % width;
            let y = i / width;
            let outer = crate::image::grid_row_sum(bitmap, width, height, x, y, k);
            assert forall|ky: int| 0 <= ky < 3 implies 0 <= #[trigger] outer(ky) by {
                let inner = crate::image::grid_tap(bitmap, width, height, x, y, k, ky);
                assert forall|kx: int| 0 <= kx < 3 implies 0 <= #[trigger] inner(kx) by {
                    let dy = y + ky - 1;
                    let dx = x + kx - 1;
                    if 0 <= dy < height && 0 <= dx < width {
                        crate::image::lemma_flat_in_range(width, height, dx, dy);
                        let p = bitmap[crate::image::flat(width, dx, dy)];
                        assert(0 <= k[ky][kx] <= 1);
                        assert(0 <= k[ky][kx] * p) by (nonlinear_arith)
                            requires
                                0 <= k[ky][kx],
                                0 <= p,
                        ;
                    }
                }
                crate::fixed::lemma_sum_to_nonnegative(inner, 3);
            }
            crate::fixed::lemma_sum_to_nonnegative(outer, 3);
        }
    }
    crate::fixed::lemma_sum_to_nonnegative(f, width * height);
}

/// A bitmap without a lit pixel faces nowhere: its direction is `(0, 0)`.
pub proof fn lemma_blank_direction(bitmap: Seq<i32>, width: int, height: int)
    requires
        0 <= width,
        0 <= height,
        bitmap.len() == width * height,
        forall|i: int| 0 <= i < bitmap.len() ==> #[trigger] bitmap[i] == 0,
    ensures
        facing(bitmap, width, height) == (0int, 0int),
{
    let f = masked_term(bitmap, width, height, weight_kernel());
    assert forall|i: int| 0 <= i < width * height implies 0 <= #[trigger] f(i) <= 0 by {
        assert(bitmap[i] == 0);
    }
    lemma_sum_to_bounds(f, width * height, 0, 0);
    assert(0 <= width * height) by (nonlinear_arith)
        requires
            0 <= width,
            0 <= height,
    ;
}

/// The two sides of a glyph.
#[derive(Clone, Copy, Debug, PartialEq, Eq)]
pub enum Axis {
    Height,
    Width,
}

/// Why no font could be made.
#[derive(Clone, Copy, Debug, PartialEq, Eq)]
pub enum FontError {
    /// No glyph draws a character of the alphabet.
    EmptyAlphabet,
    /// The glyphs differ along `axis`: their sizes range from `min` to `max`.
    DimensionMismatch { axis: Axis, min: usize, max: usize },
    /// No glyph has as much as one fully lit pixel, so no glyph can stand
    /// for a brightness above zero.
    NoInk,
    /// A parsed glyph has no bit for a pixel of its bounding box, or more
    /// pixels than `MAX_AREA`.
    BadGlyph,
}

/// A set of glyphs of one size, with the table that finds the glyph for a
/// brightness level.
pub struct Font {
    pub width: usize,
    pub height: usize,
    pub chars: Vec<Character>,
    /// For each level from 0 to `width * height`, the place in `chars` of
    /// the glyph that stands for it.
    pub intensity_chars: Vec<usize>,
}

/// What the glyphs are made from, in their order.
pub open spec fn views(chars: Seq<Character>) -> Seq<GlyphView> {
    chars.map_values(|c: Character| c@)
}

/// Whether a glyph draws a character of the alphabet.
pub open spec fn allowed(alphabet: Seq<char>) -> spec_fn(GlyphView) -> bool {
    |g: GlyphView| alphabet.contains(g.value)
}

/// The glyphs that draw a character of the alphabet, in their order.
pub open spec fn kept(glyphs: Seq<GlyphView>, alphabet: Seq<char>) -> Seq<GlyphView> {
    glyphs.filter(allowed(alphabet))
}

/// `r` is what making a font of the glyphs and the alphabet comes to: the
/// font of the glyphs kept, or the reason why there is none.
pub open spec fn made(glyphs: Seq<GlyphView>, alphabet: Seq<char>, r: Result<Font, FontError>) -> bool {
    let rest = kept(glyphs, alphabet);
    match r {
        Ok(font) => {
            &&& font.wf()
            &&& views(font.chars@) == rest
        },
        Err(FontError::EmptyAlphabet) => rest.len() == 0,
        Err(FontError::DimensionMismatch { axis: Axis::Height, min, max }) => {
            &&& min < max
            &&& least_height(rest, min as int)
            &&& greatest_height(rest, max as int)
        },
        Err(FontError::DimensionMismatch { axis: Axis::Width, min, max }) => {
            &&& min < max
            &&& least_width(rest, min as int)
            &&& greatest_width(rest, max as int)
            &&& exists|h: int| least_height(rest, h) && greatest_height(rest, h)
        },
        Err(FontError::NoInk) => {
            &&& rest.len() > 0
            &&& exists|w: int, h: int| uniform(rest, w, h)
            &&& peak(rest) == 0
        },
        Err(FontError::BadGlyph) => false,
    }
}

/// `v` is the smallest height among the glyphs.
pub open spec fn least_height(glyphs: Seq<GlyphView>, v: int) -> bool {
    &&& exists|i: int| 0 <= i < glyphs.len() && (#[trigger] glyphs[i]).height == v
    &&& forall|i: int| 0 <= i < glyphs.len() ==> v <= (#[trigger] glyphs[i]).height
}

/// `v` is the largest height among the glyphs.
pub open spec fn greatest_height(glyphs: Seq<GlyphView>, v: int) -> bool {
    &&& exists|i: int| 0 <= i < glyphs.len() && (#[trigger] glyphs[i]).height == v
    &&& forall|i: int| 0 <= i < glyphs.len() ==> v >= (#[trigger] glyphs[i]).height
}

/// `v` is the smallest width among the glyphs.
pub open spec fn least_width(glyphs: Seq<GlyphView>, v: int) -> bool {
    &&& exists|i: int| 0 <= i < glyphs.len() && (#[trigger] glyphs[i]).width == v
    &&& forall|i: int| 0 <= i < glyphs.len() ==> v <= (#[trigger] glyphs[i]).width
}

/// `v` is the largest width among the glyphs.
pub open spec fn greatest_width(glyphs: Seq<GlyphView>, v: int) -> bool {
    &&& exists|i: int| 0 <= i < glyphs.len() && (#[trigger] glyphs[i]).width == v
    &&& forall|i: int| 0 <= i < glyphs.len() ==> v >= (#[trigger] glyphs[i]).width
}

/// All glyphs are `width` wide and `height` high.
pub open spec fn uniform(glyphs: Seq<GlyphView>, width: int, height: int) -> bool {
    forall|i: int|
        0 <= i < glyphs.len() ==> (#[trigger] glyphs[i]).width == width && glyphs[i].height
            == height
}

/// The brightness of a bitmap in whole pixels: the sum of its samples
/// divided by `UNIT`, fractions dropped.
pub open spec fn raw_intensity(bitmap: Seq<i32>) -> int {
    total(bitmap) / (UNIT as int)
}

/// The greatest `raw_intensity` among the glyphs; 0 where there is none.
pub open spec fn peak(glyphs: Seq<GlyphView>) -> int
    decreases glyphs.len(),
{
    if glyphs.len() == 0 {
        0
    } else {
        let rest = peak(glyphs.drop_last());
        let last = raw_intensity(glyphs.last().bitmap);
        if last > rest {
            last
        } else {
            rest
        }
    }
}

/// The level a glyph stands at: its brightness stretched so that the
/// brightest glyph stands at `area`.
pub open spec fn level_of(g: GlyphView, area: int, top: int) -> int {
    (raw_intensity(g.bitmap) * area) / top
}

/// The levels of all the glyphs, in their order.
pub open spec fn levels(glyphs: Seq<GlyphView>, area: int) -> Seq<int> {
    Seq::new(glyphs.len(), |i: int| level_of(glyphs[i], area, peak(glyphs)))
}

/// `g` is the place of the glyph that stands for `level`: its own level is
/// the smallest that is not below `level`, and it is the first glyph at that
/// level.
pub open spec fn is_entry(levels: Seq<int>, level: int, g: int) -> bool {
    &&& 0 <= g < levels.len()
    &&& levels[g] >= level
    &&& forall|j: int| 0 <= j < levels.len() && #[trigger] levels[j] >= level ==> levels[g] <= levels[j]
    &&& forall|j: int| 0 <= j < g ==> #[trigger] levels[j] != levels[g]
}

fn contains_char(alphabet: &[char], c: char) -> (r: bool)
    ensures
        r == alphabet@.contains(c),
{
    let n: usize = alphabet.len();
    let mut i: usize = 0;
    while i < n
        invariant
            n == alphabet@.len(),
            i <= n,
            forall|j: int| 0 <= j < i ==> alphabet@[j] != c,
        decreases n - i,
    {
        if alphabet[i] == c {
            return true;
        }
        i = i + 1;
    }
    false
}

fn keep_allowed(chars: &[Character], alphabet: &[char]) -> (r: Vec<Character>)
    requires
        forall|i: int| 0 <= i < chars@.len() ==> (#[trigger] chars@[i]).wf(),
    ensures
        views(r@) == kept(views(chars@), alphabet@),
        forall|i: int| 0 <= i < r@.len() ==> (#[trigger] r@[i]).wf(),
{
    let n: usize = chars.len();
    let mut out: Vec<Character> = Vec::new();
    let mut i: usize = 0;
    let ghost pred = allowed(alphabet@);
    proof {
        assert(views(chars@.take(0)) =~= Seq::<GlyphView>::empty());
        assert(views(out@) =~= Seq::<GlyphView>::empty());
        reveal(Seq::filter);
    }
    while i < n
        invariant
            n == chars@.len(),
            i <= n,
            pred == allowed(alphabet@),
            forall|j: int| 0 <= j < chars@.len() ==> (#[trigger] chars@[j]).wf(),
            views(out@) == views(chars@.take(i as int)).filter(pred),
            forall|j: int| 0 <= j < out@.len() ==> (#[trigger] out@[j]).wf(),
        decreases n - i,
    {
        let c: &Character = &chars[i];
        let ghost before = out@;
        proof {
            let head = views(chars@.take(i as int));
            assert(views(chars@.take(i + 1)) =~= head.push(c@));
            head.lemma_filter_push(c@, pred);
        }
        if contains_char(alphabet, c.value) {
            let copy: Character = c.clone();
            out.push(copy);
            assert(views(out@) =~= views(before).push(c@));
        }
        i = i + 1;
    }
    assert(chars@.take(n as int) =~= chars@);
    out
}

/// The smallest and the largest height among the glyphs.
fn height_range(chars: &Vec<Character>) -> (r: (usize, usize))
    requires
        chars@.len() > 0,
    ensures
        least_height(views(chars@), r.0 as int),
        greatest_height(views(chars@), r.1 as int),
{
    let n: usize = chars.len();
    let mut low: usize = chars[0].height;
    let mut high: usize = chars[0].height;
    let ghost mut low_at: int = 0;
    let ghost mut high_at: int = 0;
    let mut i: usize = 1;
    while i < n
        invariant
            n == chars@.len(),
            1 <= i <= n,
            0 <= low_at < i,
            0 <= high_at < i,
            chars@[low_at].height == low,
            chars@[high_at].height == high,
            forall|j: int| 0 <= j < i ==> low <= (#[trigger] chars@[j]).height <= high,
        decreases n - i,
    {
        let h: usize = chars[i].height;
        if h < low {
            low = h;
            proof {
                low_at = i as int;
            }
        }
        if h > high {
            high = h;
            proof {
                high_at = i as int;
            }
        }
        i = i + 1;
    }
    proof {
        let g = views(chars@);
        assert(g[low_at].height == low);
        assert(g[high_at].height == high);
        assert forall|j: int| 0 <= j < g.len() implies low <= (#[trigger] g[j]).height <= high by {
            assert(g[j] == chars@[j]@);
        }
    }
    (low, high)
}

/// The smallest and the largest width among the glyphs.
fn width_range(chars: &Vec<Character>) -> (r: (usize, usize))
    requires
        chars@.len() > 0,
    ensures
        least_width(views(chars@), r.0 as int),
        greatest_width(views(chars@), r.1 as int),
{
    let n: usize = chars.len();
    let mut low: usize = chars[0].width;
    let mut high: usize = chars[0].width;
    let ghost mut low_at: int = 0;
    let ghost mut high_at: int = 0;
    let mut i: usize = 1;
    while i < n
        invariant
            n == chars@.len(),
            1 <= i <= n,
            0 <= low_at < i,
            0 <= high_at < i,
            chars@[low_at].width == low,
            chars@[high_at].width == high,
            forall|j: int| 0 <= j < i ==> low <= (#[trigger] chars@[j]).width <= high,
        decreases n - i,
    {
        let w: usize = chars[i].width;
        if w < low {
            low = w;
            proof {
                low_at = i as int;
            }
        }
        if w > high {
            high = w;
            proof {
                high_at = i as int;
            }
        }
        i = i + 1;
    }
    proof {
        let g = views(chars@);
        assert(g[low_at].width == low);
        assert(g[high_at].width == high);
        assert forall|j: int| 0 <= j < g.len() implies low <= (#[trigger] g[j]).width <= high by {
            assert(g[j] == chars@[j]@);
        }
    }
    (low, high)
}

/// The brightness of a well-formed glyph lies between nothing and all of
/// its pixels fully lit.
pub proof fn lemma_intensity_range(c: Character)
    requires
        c.wf(),
    ensures
        0 <= c.intensity <= c.width * c.height * UNIT,
        0 <= raw_intensity(c.bitmap@) <= c.width * c.height,
        raw_intensity(c.bitmap@) == c.intensity / (UNIT as i64),
{
    let n = c.bitmap@.len() as int;
    lemma_sum_to_bounds(crate::metrics::sample_term(c.bitmap@), n, 0, UNIT as int);
    assert(n * 0 == 0);
    assert(c.width * c.height * UNIT == n * UNIT);
    vstd::arithmetic::div_mod::lemma_div_pos_is_pos(c.intensity as int, UNIT as int);
    assert(n * UNIT == 65536 * n);
    vstd::arithmetic::div_mod::lemma_multiply_divide_le(c.intensity as int, UNIT as int, n);
}

/// The peak is the brightness of one of the glyphs and no glyph is
/// brighter.
pub proof fn lemma_peak(glyphs: Seq<GlyphView>)
    requires
        glyphs.len() > 0,
        forall|i: int| 0 <= i < glyphs.len() ==> 0 <= raw_intensity((#[trigger] glyphs[i]).bitmap),
    ensures
        exists|i: int| 0 <= i < glyphs.len() && raw_intensity((#[trigger] glyphs[i]).bitmap) == peak(glyphs),
        forall|i: int| 0 <= i < glyphs.len() ==> raw_intensity((#[trigger] glyphs[i]).bitmap) <= peak(glyphs),
    decreases glyphs.len(),
{
    let rest = glyphs.drop_last();
    let last = glyphs.len() - 1;
    if rest.len() == 0 {
        assert(peak(rest) == 0);
        assert(raw_intensity(glyphs[last].bitmap) == peak(glyphs));
    } else {
        assert forall|i: int| 0 <= i < rest.len() implies 0 <= raw_intensity(
            (#[trigger] rest[i]).bitmap,
        ) by {
            assert(rest[i] == glyphs[i]);
        }
        lemma_peak(rest);
        let w = choose|i: int| 0 <= i < rest.len() && raw_intensity((#[trigger] rest[i]).bitmap) == peak(rest);
        assert(rest[w] == glyphs[w]);
        if raw_intensity(glyphs[last].bitmap) > peak(rest) {
            assert(raw_intensity(glyphs[last].bitmap) == peak(glyphs));
        } else {
            assert(raw_intensity(glyphs[w].bitmap) == peak(glyphs));
        }
        assert forall|i: int| 0 <= i < glyphs.len() implies raw_intensity(
            (#[trigger] glyphs[i]).bitmap,
        ) <= peak(glyphs) by {
            if i < last {
                assert(rest[i] == glyphs[i]);
            }
        }
    }
}

/// The greatest brightness among the glyphs, in whole pixels.
fn peak_intensity(chars: &Vec<Character>) -> (r: i64)
    requires
        forall|i: int| 0 <= i < chars@.len() ==> (#[trigger] chars@[i]).wf(),
    ensures
        r == peak(views(chars@)),
        r >= 0,
{
    let n: usize = chars.len();
    let mut top: i64 = 0;
    let mut i: usize = 0;
    assert(views(chars@.take(0)) =~= Seq::<GlyphView>::empty());
    while i < n
        invariant
            n == chars@.len(),
            i <= n,
            forall|j: int| 0 <= j < chars@.len() ==> (#[trigger] chars@[j]).wf(),
            top == peak(views(chars@.take(i as int))),
            top >= 0,
        decreases n - i,
    {
        proof {
            lemma_intensity_range(chars@[i as int]);
            let next = views(chars@.take(i + 1));
            assert(next.drop_last() =~= views(chars@.take(i as int)));
            assert(next.last() == chars@[i as int]@);
        }
        let raw: i64 = chars[i].intensity / (UNIT as i64);
        if raw > top {
            top = raw;
        }
        i = i + 1;
    }
    assert(chars@.take(n as int) =~= chars@);
    top
}

/// The level of every glyph.
fn intensity_levels(chars: &Vec<Character>, area: usize, top: i64) -> (r: Vec<i64>)
    requires
        forall|i: int| 0 <= i < chars@.len() ==> (#[trigger] chars@[i]).wf(),
        forall|i: int| 0 <= i < chars@.len() ==> (#[trigger] chars@[i]).width * chars@[i].height == area,
        area <= MAX_AREA,
        top == peak(views(chars@)),
        top > 0,
    ensures
        r@.len() == chars@.len(),
        forall|i: int| 0 <= i < r@.len() ==> #[trigger] r@[i] == levels(views(chars@), area as int)[i],
{
    let n: usize = chars.len();
    let mut out: Vec<i64> = Vec::new();
    let mut i: usize = 0;
    while i < n
        invariant
            n == chars@.len(),
            i <= n,
            forall|j: int| 0 <= j < chars@.len() ==> (#[trigger] chars@[j]).wf(),
            forall|j: int|
                0 <= j < chars@.len() ==> (#[trigger] chars@[j]).width * chars@[j].height == area,
            area <= MAX_AREA,
            top == peak(views(chars@)),
            top > 0,
            out@.len() == i,
            forall|j: int| 0 <= j < i ==> #[trigger] out@[j] == levels(views(chars@), area as int)[j],
        decreases n - i,
    {
        proof {
            lemma_intensity_range(chars@[i as int]);
        }
        let raw: i64 = chars[i].intensity / (UNIT as i64);
        assert(0 <= raw * area <= 0x7fff_ffff * 0x7fff_ffff) by (nonlinear_arith)
            requires
                0 <= raw <= area,
                area <= 0x7fff_ffff,
        ;
        out.push((raw * (area as i64)) / top);
        i = i + 1;
    }
    out
}

/// For every level from 0 to `area` the place of the glyph that stands for
/// it.
fn build_table(levels: &Vec<i64>, area: usize) -> (r: Vec<usize>)
    requires
        area <= MAX_AREA,
        exists|i: int| 0 <= i < levels@.len() && #[trigger] levels@[i] >= area,
    ensures
        r@.len() == area + 1,
        forall|level: int|
            0 <= level <= area ==> is_entry(
                levels@.map_values(|v: i64| v as int),
                level,
                (#[trigger] r@[level]) as int,
            ),
{
    let n: usize = levels.len();
    let ghost wide = levels@.map_values(|v: i64| v as int);
    let mut table: Vec<usize> = Vec::new();
    let mut level: usize = 0;
    while level <= area
        invariant
            n == levels@.len(),
            area <= MAX_AREA,
            wide == levels@.map_values(|v: i64| v as int),
            exists|i: int| 0 <= i < levels@.len() && #[trigger] levels@[i] >= area,
            level <= area + 1,
            table@.len() == level,
            forall|l: int| 0 <= l < level ==> is_entry(wide, l, (#[trigger] table@[l]) as int),
        decreases area + 1 - level,
    {
        let mut best: usize = n;
        let mut g: usize = 0;
        while g < n
            invariant
                n == levels@.len(),
                wide == levels@.map_values(|v: i64| v as int),
                level <= area,
                area <= MAX_AREA,
                g <= n,
                best <= n,
                best < n ==> best < g && levels@[best as int] >= level,
                best < n ==> forall|j: int|
                    0 <= j < g && #[trigger] levels@[j] >= level ==> levels@[best as int] <= levels@[j],
                best < n ==> forall|j: int|
                    0 <= j < best ==> #[trigger] levels@[j] != levels@[best as int],
                best == n ==> forall|j: int| 0 <= j < g ==> #[trigger] levels@[j] < level,
            decreases n - g,
        {
            let v: i64 = levels[g];
            if v >= level as i64 && (best == n || v < levels[best]) {
                best = g;
            }
            g = g + 1;
        }
        proof {
            let top = choose|i: int| 0 <= i < levels@.len() && #[trigger] levels@[i] >= area;
            assert(levels@[top] >= level);
            assert(best < n);
            assert(is_entry(wide, level as int, best as int));
        }
        table.push(best);
        level = level + 1;
    }
    table
}

impl Font {
    /// The number of pixels of every glyph.
    pub open spec fn area(&self) -> int {
        self.width * self.height
    }

    /// The levels of the font's glyphs, in their order.
    pub open spec fn glyph_levels(&self) -> Seq<int> {
        levels(views(self.chars@), self.area())
    }

    /// There is a glyph, all glyphs are well formed and of the font's size,
    /// one of them has a lit pixel, and the table names for every level from
    /// 0 to `area()` the glyph that stands for it.
    pub open spec fn wf(&self) -> bool {
        &&& self.chars@.len() > 0
        &&& forall|i: int| 0 <= i < self.chars@.len() ==> (#[trigger] self.chars@[i]).wf()
        &&& uniform(views(self.chars@), self.width as int, self.height as int)
        &&& self.area() <= MAX_AREA
        &&& peak(views(self.chars@)) > 0
        &&& self.intensity_chars@.len() == self.area() + 1
        &&& forall|level: int|
            0 <= level <= self.area() ==> is_entry(
                self.glyph_levels(),
                level,
                (#[trigger] self.intensity_chars@[level]) as int,
            )
    }

    /// Makes a font of the glyphs that draw a character of `alphabet`, in
    /// the order given.
    ///
    /// Fails with `EmptyAlphabet` where no glyph is left, with
    /// `DimensionMismatch` where the glyphs left differ in height or, their
    /// heights being equal, in width, and with `NoInk` where none of them
    /// has a brightness of one whole pixel.
    pub fn new(chars: &[Character], alphabet: &[char]) -> (r: Result<Font, FontError>)
        requires
            forall|i: int| 0 <= i < chars@.len() ==> (#[trigger] chars@[i]).wf(),
        ensures
            made(views(chars@), alphabet@, r),
    {
        let glyphs: Vec<Character> = keep_allowed(chars, alphabet);
        if glyphs.len() == 0 {
            return Err(FontError::EmptyAlphabet);
        }
        let (min_height, max_height) = height_range(&glyphs);
        if max_height != min_height {
            return Err(FontError::DimensionMismatch { axis: Axis::Height, min: min_height, max: max_height });
        }
        let (min_width, max_width) = width_range(&glyphs);
        if max_width != min_width {
            return Err(FontError::DimensionMismatch { axis: Axis::Width, min: min_width, max: max_width });
        }
        let width: usize = min_width;
        let height: usize = min_height;
        let ghost g = views(glyphs@);
        proof {
            assert(uniform(g, width as int, height as int));
            assert(g[0] == glyphs@[0]@);
            assert(glyphs@[0].wf());
            assert forall|i: int| 0 <= i < glyphs@.len() implies (#[trigger] glyphs@[i]).width
                * glyphs@[i].height == width * height by {
                assert(g[i] == glyphs@[i]@);
            }
        }
        let area: usize = width * height;
        let top: i64 = peak_intensity(&glyphs);
        if top == 0 {
            return Err(FontError::NoInk);
        }
        let marks: Vec<i64> = intensity_levels(&glyphs, area, top);
        proof {
            assert forall|i: int| 0 <= i < g.len() implies 0 <= raw_intensity(
                (#[trigger] g[i]).bitmap,
            ) by {
                assert(g[i] == glyphs@[i]@);
                lemma_intensity_range(glyphs@[i]);
            }
            lemma_peak(g);
            let m = choose|i: int| 0 <= i < g.len() && raw_intensity((#[trigger] g[i]).bitmap) == peak(g);
            vstd::arithmetic::div_mod::lemma_div_multiples_vanish(area as int, top as int);
            assert(raw_intensity(g[m].bitmap) * area == top * area);
            assert(levels(g, area as int)[m] == area);
            assert(marks@[m] >= area);
        }
        let table: Vec<usize> = build_table(&marks, area);
        proof {
            assert(marks@.map_values(|v: i64| v as int) =~= levels(g, area as int));
        }
        Ok(Font { width, height, chars: glyphs, intensity_chars: table })
    }

    /// `g` is the place of the glyph that draws `value`: the last one that
    /// does.
    pub open spec fn draws(&self, value: char, g: int) -> bool {
        &&& 0 <= g < self.chars@.len()
        &&& self.chars@[g].value == value
        &&& forall|j: int| g < j < self.chars@.len() ==> (#[trigger] self.chars@[j]).value != value
    }

    /// Some glyph of the font draws `value`.
    pub open spec fn drawn_by(&self, value: char) -> bool {
        exists|g: int| self.draws(value, g)
    }

    /// The place of the glyph that draws `value`, where one does.
    pub open spec fn glyph_of(&self, value: char) -> int {
        choose|g: int| self.draws(value, g)
    }

    /// The place in `chars` of the glyph that draws `value`: the last one,
    /// where several do. `None` where none does.
    pub fn glyph(&self, value: char) -> (r: Option<usize>)
        ensures
            r.is_some() <==> self.drawn_by(value),
            r matches Some(i) ==> self.draws(value, i as int) && i == self.glyph_of(value),
    {
        let mut i: usize = self.chars.len();
        while i > 0
            invariant
                i <= self.chars@.len(),
                forall|j: int| i <= j < self.chars@.len() ==> (#[trigger] self.chars@[j]).value != value,
            decreases i,
        {
            i = i - 1;
            if self.chars[i].value == value {
                assert(self.draws(value, i as int));
                return Some(i);
            }
        }
        None
    }
}

/// The table of a font has one entry for each level from 0 to the number of
/// pixels of a glyph, every entry names a glyph of the font, and the level
/// of the glyph named never falls as the level looked up rises.
pub proof fn lemma_intensity_table(font: Font)
    requires
        font.wf(),
    ensures
        font.intensity_chars@.len() == font.width * font.height + 1,
        forall|level: int|
            0 <= level <= font.area() ==> 0 <= #[trigger] font.intensity_chars@[level]
                < font.chars@.len(),
        forall|a: int, b: int|
            0 <= a <= b <= font.area() ==> font.glyph_levels()[font.intensity_chars@[a] as int]
                <= font.glyph_levels()[font.intensity_chars@[b] as int],
        forall|level: int|
            0 <= level <= font.area() ==> font.glyph_levels()[font.intensity_chars@[level] as int]
                >= level,
{
    let marks = font.glyph_levels();
    assert forall|a: int, b: int| 0 <= a <= b <= font.area() implies marks[font.intensity_chars@[a] as int]
        <= marks[font.intensity_chars@[b] as int] by {
        assert(is_entry(marks, a, font.intensity_chars@[a] as int));
        assert(is_entry(marks, b, font.intensity_chars@[b] as int));
    }
    assert forall|level: int| 0 <= level <= font.area() implies 0 <= #[trigger] font.intensity_chars@[level]
        < font.chars@.len() && marks[font.intensity_chars@[level] as int] >= level by {
        assert(is_entry(marks, level, font.intensity_chars@[level] as int));
    }
}

/// The glyphs of a well-formed font have at least one pixel.
pub proof fn lemma_font_has_area(font: Font)
    requires
        font.wf(),
    ensures
        font.width > 0,
        font.height > 0,
        0 < font.area() <= MAX_AREA,
{
    let g = views(font.chars@);
    assert forall|i: int| 0 <= i < g.len() implies 0 <= raw_intensity(
        (#[trigger] g[i]).bitmap,
    ) by {
        assert(g[i] == font.chars@[i]@);
        lemma_intensity_range(font.chars@[i]);
    }
    lemma_peak(g);
    let m = choose|i: int|
        0 <= i < g.len() && raw_intensity((#[trigger] g[i]).bitmap) == peak(g);
    assert(g[m] == font.chars@[m]@);
    lemma_intensity_range(font.chars@[m]);
    assert(font.width * font.height > 0);
    assert(font.width > 0 && font.height > 0) by (nonlinear_arith)
        requires
            font.width * font.height > 0,
            font.width >= 0,
            font.height >= 0,
    ;
}

} // verus!
