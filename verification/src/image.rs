//! Grayscale sample buffers and the filters that prepare them for matching.

use vstd::prelude::*;
use crate::color::{ColorImage, Rgba};
use crate::fixed::{
    clamp_sample, div_toward_zero, lemma_sample_product, lemma_scaled_fits, product_bound,
    saturate, sum_to, trunc_div, UNIT,
};

verus! {

/// A rectangular grid of pixels addressed by column `x` and row `y`.
pub trait Image<T> {
    /// What every value of the type must satisfy before it is read or written.
    spec fn valid(&self) -> bool;

    spec fn width_spec(&self) -> nat;

    spec fn height_spec(&self) -> nat;

    /// The pixel in column `x` of row `y`.
    spec fn pixel_spec(&self, x: int, y: int) -> T;

    fn get_width(&self) -> (w: usize)
        requires
            self.valid(),
        ensures
            w == self.width_spec(),
    ;

    fn get_height(&self) -> (h: usize)
        requires
            self.valid(),
        ensures
            h == self.height_spec(),
    ;

    fn get_pixel(&self, x: usize, y: usize) -> (p: T)
        requires
            self.valid(),
            x < self.width_spec(),
            y < self.height_spec(),
        ensures
            p == self.pixel_spec(x as int, y as int),
    ;

    fn set_pixel(&mut self, x: usize, y: usize, pixel: T)
        requires
            old(self).valid(),
            x < old(self).width_spec(),
            y < old(self).height_spec(),
        ensures
            final(self).valid(),
            final(self).width_spec() == old(self).width_spec(),
            final(self).height_spec() == old(self).height_spec(),
            final(self).pixel_spec(x as int, y as int) == pixel,
            forall|i: int, j: int|
                0 <= i < old(self).width_spec() && 0 <= j < old(self).height_spec() && !(i == x
                    && j == y) ==> #[trigger] final(self).pixel_spec(i, j) == old(self).pixel_spec(
                    i,
                    j,
                ),
    ;

    fn get_dimensions(&self) -> (d: (usize, usize))
        requires
            self.valid(),
        ensures
            d.0 == self.width_spec(),
            d.1 == self.height_spec(),
    {
        (self.get_width(), self.get_height())
    }
}

/// A buffer of `width * height` samples, stored row by row.
pub struct LumaImage<T> {
    width: usize,
    height: usize,
    pixels: Vec<T>,
}

/// Position of the pixel `(x, y)` in a row-major buffer of the given width.
pub open spec fn flat(width: int, x: int, y: int) -> int {
    width * y + x
}

/// A pixel inside a `width` × `height` grid has its place inside the buffer,
/// and two different pixels have different places.
pub proof fn lemma_flat_in_range(width: int, height: int, x: int, y: int)
    requires
        0 <= x < width,
        0 <= y < height,
    ensures
        0 <= flat(width, x, y) < width * height,
        width * y + width <= width * height,
        flat(width, x, y) / width == y,
        flat(width, x, y) % width == x,
{
    assert(width * y + width <= width * height && 0 <= width * y) by (nonlinear_arith)
        requires
            0 <= y < height,
            0 < width,
    ;
    vstd::arithmetic::div_mod::lemma_fundamental_div_mod_converse(width * y + x, width, y, x);
}

/// The place `i` of a row-major buffer belongs to the pixel in column
/// `i % width` of row `i / width`.
pub proof fn lemma_cell_of(width: int, height: int, i: int)
    requires
        0 <= i < width * height,
        0 <= width,
        0 <= height,
    ensures
        0 < width,
        0 <= i % width < width,
        0 <= i / width < height,
        flat(width, i % width, i / width) == i,
{
    assert(width > 0) by (nonlinear_arith)
        requires
            0 <= i < width * height,
            0 <= width,
    ;
    vstd::arithmetic::div_mod::lemma_fundamental_div_mod(i, width);
    vstd::arithmetic::div_mod::lemma_mod_bound(i, width);
    let q = i / width;
    assert(0 <= q < height) by (nonlinear_arith)
        requires
            0 <= i < width * height,
            i == width * q + i % width,
            0 <= i % width < width,
            0 < width,
    ;
}

impl<T> LumaImage<T> {
    /// The buffer holds exactly one sample for each pixel.
    pub closed spec fn wf(&self) -> bool {
        self.pixels@.len() == self.width * self.height <= usize::MAX
    }

    pub closed spec fn spec_width(&self) -> nat {
        self.width as nat
    }

    pub closed spec fn spec_height(&self) -> nat {
        self.height as nat
    }

    /// The samples, row by row.
    pub closed spec fn view(&self) -> Seq<T> {
        self.pixels@
    }

    /// What `wf` says of the three views.
    pub proof fn lemma_wf(&self)
        requires
            self.wf(),
        ensures
            self@.len() == self.spec_width() * self.spec_height() <= usize::MAX,
    {
    }

    /// Makes an image of the given size from its samples, listed row by row.
    /// Returns `None` exactly when the number of samples is not
    /// `width * height`.
    pub fn from_pixels(width: usize, height: usize, pixels: Vec<T>) -> (r: Option<Self>)
        ensures
            r.is_some() <==> pixels@.len() == width * height,
            r matches Some(img) ==> img.wf() && img.spec_width() == width && img.spec_height()
                == height && img@ == pixels@,
    {
        let len: usize = pixels.len();
        let area: Option<usize> = width.checked_mul(height);
        match area {
            Some(n) => {
                if n == len {
                    Some(LumaImage { width, height, pixels })
                } else {
                    None
                }
            },
            None => None,
        }
    }

    /// The samples, row by row.
    pub fn pixels(&self) -> (r: &Vec<T>)
        ensures
            r@ == self@,
    {
        &self.pixels
    }
}

impl<T: Copy> Clone for LumaImage<T> {
    fn clone(&self) -> (r: Self)
        ensures
            r@ == self@,
            r.spec_width() == self.spec_width(),
            r.spec_height() == self.spec_height(),
            self.wf() ==> r.wf(),
    {
        let n: usize = self.pixels.len();
        let mut pixels: Vec<T> = Vec::new();
        let mut i: usize = 0;
        while i < n
            invariant
                n == self.pixels@.len(),
                i <= n,
                pixels@.len() == i,
                forall|j: int| 0 <= j < i ==> #[trigger] pixels@[j] == self.pixels@[j],
            decreases n - i,
        {
            pixels.push(self.pixels[i]);
            i = i + 1;
        }
        assert(pixels@ =~= self.pixels@);
        LumaImage { width: self.width, height: self.height, pixels }
    }
}

impl<T: Copy> Image<T> for LumaImage<T> {
    open spec fn valid(&self) -> bool {
        self.wf()
    }

    open spec fn width_spec(&self) -> nat {
        self.spec_width()
    }

    open spec fn height_spec(&self) -> nat {
        self.spec_height()
    }

    open spec fn pixel_spec(&self, x: int, y: int) -> T {
        self@[flat(self.spec_width() as int, x, y)]
    }

    fn get_width(&self) -> (w: usize) {
        self.width
    }

    fn get_height(&self) -> (h: usize) {
        self.height
    }

    fn get_pixel(&self, x: usize, y: usize) -> (p: T) {
        proof {
            lemma_flat_in_range(self.width as int, self.height as int, x as int, y as int);
        }
        self.pixels[self.width * y + x]
    }

    fn set_pixel(&mut self, x: usize, y: usize, pixel: T) {
        proof {
            lemma_flat_in_range(self.width as int, self.height as int, x as int, y as int);
            assert forall|i: int, j: int|
                0 <= i < self.width && 0 <= j < self.height && !(i == x && j == y) implies 0
                <= #[trigger] flat(self.width as int, i, j) < self.pixels@.len() && flat(
                self.width as int,
                i,
                j,
            ) != flat(self.width as int, x as int, y as int) by {
                lemma_flat_in_range(self.width as int, self.height as int, i, j);
            }
        }
        let at: usize = self.width * y + x;
        self.pixels.set(at, pixel);
    }
}

/// How far a kernel of `len` taps reaches to the left of (or above) the pixel
/// it is centred on.
pub open spec fn kernel_offset(len: int) -> int {
    if len >= 1 {
        (len - 1) / 2
    } else {
        0
    }
}

/// A weighted sum of samples brought back to the scale of a sample: divided
/// by `UNIT`, rounded toward zero and limited to the range of a sample.
pub open spec fn filtered(sum: int) -> int {
    clamp_sample(trunc_div(sum, UNIT as int))
}

/// The terms of a horizontal pass at `(x, y)`: tap `k` reads the sample
/// `k - offset` columns to the right, and contributes nothing where that
/// column lies outside the image.
pub open spec fn row_tap(src: Seq<i32>, width: int, x: int, y: int, kernel: Seq<i32>) -> spec_fn(
    int,
) -> int {
    |k: int|
        {
            let dx = x + k - kernel_offset(kernel.len() as int);
            if 0 <= dx < width {
                kernel[k] * src[flat(width, dx, y)]
            } else {
                0
            }
        }
}

/// The terms of a vertical pass at `(x, y)`.
pub open spec fn column_tap(
    src: Seq<i32>,
    width: int,
    height: int,
    x: int,
    y: int,
    kernel: Seq<i32>,
) -> spec_fn(int) -> int {
    |k: int|
        {
            let dy = y + k - kernel_offset(kernel.len() as int);
            if 0 <= dy < height {
                kernel[k] * src[flat(width, x, dy)]
            } else {
                0
            }
        }
}

/// The sample that a horizontal pass leaves at `(x, y)`.
pub open spec fn row_filtered(src: Seq<i32>, width: int, x: int, y: int, kernel: Seq<i32>) -> int {
    filtered(sum_to(row_tap(src, width, x, y, kernel), kernel.len() as int))
}

/// The sample that a vertical pass leaves at `(x, y)`.
pub open spec fn column_filtered(
    src: Seq<i32>,
    width: int,
    height: int,
    x: int,
    y: int,
    kernel: Seq<i32>,
) -> int {
    filtered(sum_to(column_tap(src, width, height, x, y, kernel), kernel.len() as int))
}

/// The buffer that a horizontal pass makes of `src`.
pub open spec fn row_pass(src: Seq<i32>, width: int, height: int, kernel: Seq<i32>) -> Seq<i32> {
    Seq::new(
        (width * height) as nat,
        |i: int| row_filtered(src, width, i % width, i / width, kernel) as i32,
    )
}

/// The buffer that a vertical pass makes of `src`.
pub open spec fn column_pass(src: Seq<i32>, width: int, height: int, kernel: Seq<i32>) -> Seq<i32> {
    Seq::new(
        (width * height) as nat,
        |i: int| column_filtered(src, width, height, i % width, i / width, kernel) as i32,
    )
}

/// Number of columns of a two-dimensional kernel: the length of its first row.
pub open spec fn kernel_columns(kernel: Seq<Seq<i32>>) -> int {
    if kernel.len() > 0 {
        kernel[0].len() as int
    } else {
        0
    }
}

/// Every row of the kernel is as long as the first, and the kernel has no
/// more weights than a machine word counts.
pub open spec fn rectangular(kernel: Seq<Seq<i32>>) -> bool {
    &&& forall|r: int| 0 <= r < kernel.len() ==> (#[trigger] kernel[r]).len() == kernel_columns(kernel)
    &&& kernel.len() * kernel_columns(kernel) <= usize::MAX
}

/// The terms of row `ky` of a two-dimensional kernel at `(x, y)`.
pub open spec fn grid_tap(
    src: Seq<i32>,
    width: int,
    height: int,
    x: int,
    y: int,
    kernel: Seq<Seq<i32>>,
    ky: int,
) -> spec_fn(int) -> int {
    |kx: int|
        {
            let dy = y + ky - kernel_offset(kernel.len() as int);
            let dx = x + kx - kernel_offset(kernel_columns(kernel));
            if 0 <= dy < height && 0 <= dx < width {
                kernel[ky][kx] * src[flat(width, dx, dy)]
            } else {
                0
            }
        }
}

/// The sums of the kernel's rows at `(x, y)`.
pub open spec fn grid_row_sum(
    src: Seq<i32>,
    width: int,
    height: int,
    x: int,
    y: int,
    kernel: Seq<Seq<i32>>,
) -> spec_fn(int) -> int {
    |ky: int| sum_to(grid_tap(src, width, height, x, y, kernel, ky), kernel_columns(kernel))
}

/// The weighted sum that a two-dimensional kernel gathers at `(x, y)`, taps
/// outside the image left out.
pub open spec fn grid_sum(
    src: Seq<i32>,
    width: int,
    height: int,
    x: int,
    y: int,
    kernel: Seq<Seq<i32>>,
) -> int {
    sum_to(grid_row_sum(src, width, height, x, y, kernel), kernel.len() as int)
}

/// The buffer that a two-dimensional kernel makes of `src`.
pub open spec fn grid_pass(src: Seq<i32>, width: int, height: int, kernel: Seq<Seq<i32>>) -> Seq<
    i32,
> {
    Seq::new(
        (width * height) as nat,
        |i: int| filtered(grid_sum(src, width, height, i % width, i / width, kernel)) as i32,
    )
}

/// The rows of a kernel as sequences.
pub open spec fn rows_of(kernel: Seq<Vec<i32>>) -> Seq<Seq<i32>> {
    Seq::new(kernel.len(), |r: int| kernel[r]@)
}

/// The kernel of the edge detector: four times the pixel less its four
/// neighbours, in fixed point.
pub open spec fn laplacian() -> Seq<Seq<i32>> {
    seq![seq![0i32, -65536i32, 0i32], seq![-65536i32, 262144i32, -65536i32], seq![0i32, -65536i32, 0i32]]
}

/// Where tap `k` of a kernel of `len` taps reads when it is centred on
/// `at`, if that lies below `limit`.
fn tap_position(at: usize, k: usize, len: usize, limit: usize) -> (r: Option<usize>)
    requires
        at < limit,
        k < len,
    ensures
        r.is_some() <==> 0 <= at + k - kernel_offset(len as int) < limit,
        r matches Some(d) ==> d == at + k - kernel_offset(len as int),
{
    let offset: usize = (len - 1) / 2;
    if k >= offset {
        let shift: usize = k - offset;
        if shift < limit - at {
            Some(at + shift)
        } else {
            None
        }
    } else {
        let shift: usize = offset - k;
        if shift <= at {
            Some(at - shift)
        } else {
            None
        }
    }
}

fn row_sample(src: &Vec<i32>, width: usize, height: usize, x: usize, y: usize, kernel: &[i32]) -> (r:
    i32)
    requires
        src@.len() == width * height <= usize::MAX,
        x < width,
        y < height,
    ensures
        r == row_filtered(src@, width as int, x as int, y as int, kernel@),
{
    let n: usize = kernel.len();
    let mut acc: i128 = 0;
    let mut k: usize = 0;
    let ghost f = row_tap(src@, width as int, x as int, y as int, kernel@);
    while k < n
        invariant
            n == kernel@.len(),
            k <= n,
            src@.len() == width * height <= usize::MAX,
            x < width,
            y < height,
            f == row_tap(src@, width as int, x as int, y as int, kernel@),
            acc == sum_to(f, k as int),
            -(k * product_bound()) <= acc <= k * product_bound(),
        decreases n - k,
    {
        proof {
            lemma_scaled_fits(k + 1, n as int, product_bound());
            assert((k + 1) * product_bound() == k * product_bound() + product_bound())
                by (nonlinear_arith);
        }
        match tap_position(x, k, n, width) {
            Some(dx) => {
                proof {
                    lemma_flat_in_range(width as int, height as int, dx as int, y as int);
                    lemma_sample_product(kernel@[k as int], src@[flat(width as int, dx as int, y as int)]);
                }
                acc = acc + (kernel[k] as i128) * (src[width * y + dx] as i128);
            },
            None => {},
        }
        k = k + 1;
    }
    saturate(div_toward_zero(acc, UNIT as i128))
}

fn column_sample(src: &Vec<i32>, width: usize, height: usize, x: usize, y: usize, kernel: &[i32]) -> (r:
    i32)
    requires
        src@.len() == width * height <= usize::MAX,
        x < width,
        y < height,
    ensures
        r == column_filtered(src@, width as int, height as int, x as int, y as int, kernel@),
{
    let n: usize = kernel.len();
    let mut acc: i128 = 0;
    let mut k: usize = 0;
    let ghost f = column_tap(src@, width as int, height as int, x as int, y as int, kernel@);
    while k < n
        invariant
            n == kernel@.len(),
            k <= n,
            src@.len() == width * height <= usize::MAX,
            x < width,
            y < height,
            f == column_tap(src@, width as int, height as int, x as int, y as int, kernel@),
            acc == sum_to(f, k as int),
            -(k * product_bound()) <= acc <= k * product_bound(),
        decreases n - k,
    {
        proof {
            lemma_scaled_fits(k + 1, n as int, product_bound());
            assert((k + 1) * product_bound() == k * product_bound() + product_bound())
                by (nonlinear_arith);
        }
        match tap_position(y, k, n, height) {
            Some(dy) => {
                proof {
                    lemma_flat_in_range(width as int, height as int, x as int, dy as int);
                    lemma_sample_product(kernel@[k as int], src@[flat(width as int, x as int, dy as int)]);
                }
                acc = acc + (kernel[k] as i128) * (src[width * dy + x] as i128);
            },
            None => {},
        }
        k = k + 1;
    }
    saturate(div_toward_zero(acc, UNIT as i128))
}


/// The weighted sum that a two-dimensional kernel gathers at `(x, y)`.
pub(crate) fn grid_total(
    src: &Vec<i32>,
    width: usize,
    height: usize,
    x: usize,
    y: usize,
    kernel: &[Vec<i32>],
) -> (r: i128)
    requires
        src@.len() == width * height <= usize::MAX,
        x < width,
        y < height,
        rectangular(rows_of(kernel@)),
    ensures
        r == grid_sum(src@, width as int, height as int, x as int, y as int, rows_of(kernel@)),
        -(kernel@.len() * kernel_columns(rows_of(kernel@)) * product_bound()) <= r <= kernel@.len()
            * kernel_columns(rows_of(kernel@)) * product_bound(),
{
    let rows: usize = kernel.len();
    let cols: usize = if rows > 0 {
        kernel[0].len()
    } else {
        0
    };
    let ghost k = rows_of(kernel@);
    let ghost outer = grid_row_sum(src@, width as int, height as int, x as int, y as int, k);
    let mut acc: i128 = 0;
    let mut ky: usize = 0;
    while ky < rows
        invariant
            rows == kernel@.len(),
            cols == kernel_columns(k),
            k == rows_of(kernel@),
            rectangular(k),
            ky <= rows,
            src@.len() == width * height <= usize::MAX,
            x < width,
            y < height,
            outer == grid_row_sum(src@, width as int, height as int, x as int, y as int, k),
            acc == sum_to(outer, ky as int),
            -(ky * cols * product_bound()) <= acc <= ky * cols * product_bound(),
        decreases rows - ky,
    {
        let row: &Vec<i32> = &kernel[ky];
        let ghost inner = grid_tap(src@, width as int, height as int, x as int, y as int, k, ky as int);
        let dy_at: Option<usize> = tap_position(y, ky, rows, height);
        let mut line: i128 = 0;
        let mut kx: usize = 0;
        assert(k[ky as int] == row@);
        assert(row@.len() == cols);
        while kx < cols
            invariant
                rows == kernel@.len(),
                cols == kernel_columns(k),
                cols == row@.len(),
                k == rows_of(kernel@),
                k[ky as int] == row@,
                ky < rows,
                kx <= cols,
                src@.len() == width * height <= usize::MAX,
                x < width,
                y < height,
                dy_at.is_some() <==> 0 <= y + ky - kernel_offset(rows as int) < height,
                dy_at matches Some(d) ==> d == y + ky - kernel_offset(rows as int),
                inner == grid_tap(src@, width as int, height as int, x as int, y as int, k, ky as int),
                line == sum_to(inner, kx as int),
                -(kx * product_bound()) <= line <= kx * product_bound(),
            decreases cols - kx,
        {
            proof {
                lemma_scaled_fits(kx + 1, cols as int, product_bound());
                assert((kx + 1) * product_bound() == kx * product_bound() + product_bound())
                    by (nonlinear_arith);
            }
            match (dy_at, tap_position(x, kx, cols, width)) {
                (Some(dy), Some(dx)) => {
                    proof {
                        lemma_flat_in_range(width as int, height as int, dx as int, dy as int);
                        lemma_sample_product(
                            row@[kx as int],
                            src@[flat(width as int, dx as int, dy as int)],
                        );
                    }
                    line = line + (row[kx] as i128) * (src[width * dy + dx] as i128);
                },
                _ => {},
            }
            kx = kx + 1;
        }
        proof {
            let b = product_bound();
            let c = cols as int;
            let n = ky as int;
            assert((n + 1) * c * b == n * c * b + c * b) by (nonlinear_arith);
            assert((n + 1) * c <= rows * c) by (nonlinear_arith)
                requires
                    n + 1 <= rows,
                    0 <= c,
            ;
            assert(0 <= (n + 1) * c) by (nonlinear_arith)
                requires
                    0 <= n,
                    0 <= c,
            ;
            lemma_scaled_fits((n + 1) * c, rows * c, b);
            assert((n + 1) * c * b == ((n + 1) * c) * b);
        }
        acc = acc + line;
        ky = ky + 1;
    }
    acc
}

fn grid_sample(
    src: &Vec<i32>,
    width: usize,
    height: usize,
    x: usize,
    y: usize,
    kernel: &[Vec<i32>],
) -> (r: i32)
    requires
        src@.len() == width * height <= usize::MAX,
        x < width,
        y < height,
        rectangular(rows_of(kernel@)),
    ensures
        r == filtered(grid_sum(src@, width as int, height as int, x as int, y as int, rows_of(kernel@))),
{
    saturate(div_toward_zero(grid_total(src, width, height, x, y, kernel), UNIT as i128))
}

/// The source coordinate that output coordinate `i` of `out_len` falls on
/// when `src_len` coordinates are spread over `out_len`: the whole part of
/// `i · src_len / out_len`.
pub open spec fn source_index(i: int, out_len: int, src_len: int) -> int {
    (i * src_len) / out_len
}

/// The part of `i · src_len / out_len` beyond `source_index`, as a
/// fixed-point fraction.
pub open spec fn source_fraction(i: int, out_len: int, src_len: int) -> int {
    (((i * src_len) % out_len) * UNIT) / out_len
}

/// The sample of a `ow` × `oh` resize at `(x, y)`: the four source samples
/// around the point blended along x, then along y. A neighbour beyond the
/// last column or row is the last column or row itself.
pub open spec fn bilinear(src: Seq<i32>, sw: int, sh: int, ow: int, oh: int, x: int, y: int) -> int {
    let ux = source_index(x, ow, sw);
    let uy = source_index(y, oh, sh);
    let tx = source_fraction(x, ow, sw);
    let ty = source_fraction(y, oh, sh);
    let x1 = if ux + 1 < sw {
        ux + 1
    } else {
        sw - 1
    };
    let y1 = if uy + 1 < sh {
        uy + 1
    } else {
        sh - 1
    };
    let top = lerp(src[flat(sw, ux, uy)] as int, tx, src[flat(sw, x1, uy)] as int);
    let bottom = lerp(src[flat(sw, ux, y1)] as int, tx, src[flat(sw, x1, y1)] as int);
    lerp(top, ty, bottom)
}

/// The buffer of a `ow` × `oh` resize of `src`.
pub open spec fn resized(src: Seq<i32>, sw: int, sh: int, ow: int, oh: int) -> Seq<i32> {
    Seq::new((ow * oh) as nat, |i: int| bilinear(src, sw, sh, ow, oh, i % ow, i / ow) as i32)
}

fn source_position(i: usize, out_len: usize, src_len: usize) -> (r: (usize, i32))
    requires
        i < out_len,
        0 < src_len,
    ensures
        r.0 == source_index(i as int, out_len as int, src_len as int),
        r.0 < src_len,
        r.1 == source_fraction(i as int, out_len as int, src_len as int),
        0 <= r.1 < UNIT,
{
    assert(0 <= i * src_len < out_len * src_len <= 0xffff_ffff_ffff_ffff * 0xffff_ffff_ffff_ffff)
        by (nonlinear_arith)
        requires
            0 <= i < out_len <= 0xffff_ffff_ffff_ffff,
            0 < src_len <= 0xffff_ffff_ffff_ffff,
    ;
    let p: u128 = (i as u128) * (src_len as u128);
    let d: u128 = out_len as u128;
    let whole: u128 = p / d;
    let rest: u128 = p % d;
    proof {
        vstd::arithmetic::div_mod::lemma_multiply_divide_lt(p as int, d as int, src_len as int);
        vstd::arithmetic::div_mod::lemma_mod_bound(p as int, d as int);
        assert(rest * 65536 < d * 65536) by (nonlinear_arith)
            requires
                0 <= rest < d,
        ;
        vstd::arithmetic::div_mod::lemma_multiply_divide_lt(rest * 65536, d as int, 65536);
        vstd::arithmetic::div_mod::lemma_div_pos_is_pos(rest * 65536, d as int);
    }
    let part: u128 = (rest * 65536) / d;
    (whole as usize, part as i32)
}

/// The kernel scaled so that its weights add up to `UNIT`: each weight times
/// `UNIT`, divided by the sum of all of them.
pub open spec fn normalized(v: Seq<i32>) -> Seq<i32> {
    Seq::new(
        v.len(),
        |i: int| clamp_sample(trunc_div(v[i] * UNIT, crate::metrics::total(v))) as i32,
    )
}

/// Scales a kernel of positive sum so that its weights add up to `UNIT`, as
/// near as whole numbers allow. Returns `None` exactly when the sum of the
/// weights is not positive.
pub fn normalize_f32(v: &[i32]) -> (r: Option<Vec<i32>>)
    ensures
        r.is_some() <==> crate::metrics::total(v@) > 0,
        r matches Some(k) ==> k@ == normalized(v@),
{
    let sum: i128 = crate::metrics::sum_samples(v);
    if sum <= 0 {
        return None;
    }
    let n: usize = v.len();
    let mut out: Vec<i32> = Vec::new();
    let mut i: usize = 0;
    while i < n
        invariant
            n == v@.len(),
            i <= n,
            sum == crate::metrics::total(v@),
            sum > 0,
            out@.len() == i,
            forall|j: int| 0 <= j < i ==> #[trigger] out@[j] == normalized(v@)[j],
        decreases n - i,
    {
        let scaled: i128 = (v[i] as i128) * (UNIT as i128);
        out.push(saturate(div_toward_zero(scaled, sum)));
        i = i + 1;
    }
    assert(out@ =~= normalized(v@));
    Some(out)
}

impl LumaImage<i32> {
    /// Applies a one-dimensional kernel along every row. Each new sample is
    /// computed from the samples the image held before the call; taps that
    /// would read outside the row are left out.
    pub fn convolve_horizontal(&mut self, kernel: &[i32])
        requires
            old(self).wf(),
        ensures
            final(self).wf(),
            final(self).spec_width() == old(self).spec_width(),
            final(self).spec_height() == old(self).spec_height(),
            final(self)@ == row_pass(
                old(self)@,
                old(self).spec_width() as int,
                old(self).spec_height() as int,
                kernel@,
            ),
    {
        let width: usize = self.width;
        let height: usize = self.height;
        let n: usize = self.pixels.len();
        let mut out: Vec<i32> = Vec::new();
        let mut i: usize = 0;
        while i < n
            invariant
                self.wf(),
                width == self.width,
                height == self.height,
                n == self.pixels@.len(),
                n == width * height,
                i <= n,
                out@.len() == i,
                forall|j: int|
                    0 <= j < i ==> #[trigger] out@[j] == row_filtered(
                        self.pixels@,
                        width as int,
                        j % (width as int),
                        j / (width as int),
                        kernel@,
                    ),
            decreases n - i,
        {
            proof {
                lemma_cell_of(width as int, height as int, i as int);
            }
            let x: usize = i % width;
            let y: usize = i / width;
            let v: i32 = row_sample(&self.pixels, width, height, x, y, kernel);
            out.push(v);
            i = i + 1;
        }
        assert(out@ =~= row_pass(self.pixels@, width as int, height as int, kernel@));
        self.pixels = out;
    }

    /// Applies a one-dimensional kernel along every column, with the same
    /// conventions as `convolve_horizontal`.
    pub fn convolve_vertical(&mut self, kernel: &[i32])
        requires
            old(self).wf(),
        ensures
            final(self).wf(),
            final(self).spec_width() == old(self).spec_width(),
            final(self).spec_height() == old(self).spec_height(),
            final(self)@ == column_pass(
                old(self)@,
                old(self).spec_width() as int,
                old(self).spec_height() as int,
                kernel@,
            ),
    {
        let width: usize = self.width;
        let height: usize = self.height;
        let n: usize = self.pixels.len();
        let mut out: Vec<i32> = Vec::new();
        let mut i: usize = 0;
        while i < n
            invariant
                self.wf(),
                width == self.width,
                height == self.height,
                n == self.pixels@.len(),
                n == width * height,
                i <= n,
                out@.len() == i,
                forall|j: int|
                    0 <= j < i ==> #[trigger] out@[j] == column_filtered(
                        self.pixels@,
                        width as int,
                        height as int,
                        j % (width as int),
                        j / (width as int),
                        kernel@,
                    ),
            decreases n - i,
        {
            proof {
                lemma_cell_of(width as int, height as int, i as int);
            }
            let x: usize = i % width;
            let y: usize = i / width;
            let v: i32 = column_sample(&self.pixels, width, height, x, y, kernel);
            out.push(v);
            i = i + 1;
        }
        assert(out@ =~= column_pass(self.pixels@, width as int, height as int, kernel@));
        self.pixels = out;
    }

    /// Applies a two-dimensional kernel into a new image of the same size,
    /// leaving out the taps that would read outside the image.
    pub fn convolve_2d(&self, kernel: &[Vec<i32>]) -> (r: LumaImage<i32>)
        requires
            self.wf(),
            rectangular(rows_of(kernel@)),
        ensures
            r.wf(),
            r.spec_width() == self.spec_width(),
            r.spec_height() == self.spec_height(),
            r@ == grid_pass(
                self@,
                self.spec_width() as int,
                self.spec_height() as int,
                rows_of(kernel@),
            ),
    {
        let width: usize = self.width;
        let height: usize = self.height;
        let n: usize = self.pixels.len();
        let mut out: Vec<i32> = Vec::new();
        let mut i: usize = 0;
        while i < n
            invariant
                self.wf(),
                rectangular(rows_of(kernel@)),
                width == self.width,
                height == self.height,
                n == self.pixels@.len(),
                n == width * height,
                i <= n,
                out@.len() == i,
                forall|j: int|
                    0 <= j < i ==> #[trigger] out@[j] == filtered(
                        grid_sum(
                            self.pixels@,
                            width as int,
                            height as int,
                            j % (width as int),
                            j / (width as int),
                            rows_of(kernel@),
                        ),
                    ),
            decreases n - i,
        {
            proof {
                lemma_cell_of(width as int, height as int, i as int);
            }
            let x: usize = i % width;
            let y: usize = i / width;
            let v: i32 = grid_sample(&self.pixels, width, height, x, y, kernel);
            out.push(v);
            i = i + 1;
        }
        assert(out@ =~= grid_pass(self.pixels@, width as int, height as int, rows_of(kernel@)));
        LumaImage { width, height, pixels: out }
    }

    /// Blurs the image with a one-dimensional kernel, applied down the
    /// columns first and then along the rows.
    pub fn blur(&mut self, kernel: &[i32])
        requires
            old(self).wf(),
        ensures
            final(self).wf(),
            final(self).spec_width() == old(self).spec_width(),
            final(self).spec_height() == old(self).spec_height(),
            final(self)@ == row_pass(
                column_pass(
                    old(self)@,
                    old(self).spec_width() as int,
                    old(self).spec_height() as int,
                    kernel@,
                ),
                old(self).spec_width() as int,
                old(self).spec_height() as int,
                kernel@,
            ),
    {
        self.convolve_vertical(kernel);
        self.convolve_horizontal(kernel);
    }

    /// The response of the Laplacian kernel at every pixel.
    pub fn detect_edges(&self) -> (r: LumaImage<i32>)
        requires
            self.wf(),
        ensures
            r.wf(),
            r.spec_width() == self.spec_width(),
            r.spec_height() == self.spec_height(),
            r@ == grid_pass(self@, self.spec_width() as int, self.spec_height() as int, laplacian()),
    {
        let mut kernel: Vec<Vec<i32>> = Vec::new();
        kernel.push(vec![0i32, -65536i32, 0i32]);
        kernel.push(vec![-65536i32, 262144i32, -65536i32]);
        kernel.push(vec![0i32, -65536i32, 0i32]);
        proof {
            let k = rows_of(kernel@);
            assert(k.len() == 3);
            assert(k[0] =~= seq![0i32, -65536i32, 0i32]);
            assert(k[1] =~= seq![-65536i32, 262144i32, -65536i32]);
            assert(k[2] =~= seq![0i32, -65536i32, 0i32]);
            assert(k =~= laplacian());
        }
        self.convolve_2d(kernel.as_slice())
    }

    /// Scales the image to `width` × `height` by blending the four nearest
    /// source samples of each new pixel.
    pub fn resize(&self, width: usize, height: usize) -> (r: LumaImage<i32>)
        requires
            self.wf(),
            width * height <= usize::MAX,
            width * height > 0 ==> self.spec_width() > 0 && self.spec_height() > 0,
        ensures
            r.wf(),
            r.spec_width() == width,
            r.spec_height() == height,
            r@ == resized(
                self@,
                self.spec_width() as int,
                self.spec_height() as int,
                width as int,
                height as int,
            ),
    {
        let n: usize = width * height;
        let sw: usize = self.width;
        let sh: usize = self.height;
        let mut out: Vec<i32> = Vec::new();
        let mut i: usize = 0;
        while i < n
            invariant
                self.wf(),
                sw == self.width,
                sh == self.height,
                n == width * height,
                n > 0 ==> sw > 0 && sh > 0,
                i <= n,
                out@.len() == i,
                forall|j: int|
                    0 <= j < i ==> #[trigger] out@[j] == bilinear(
                        self.pixels@,
                        sw as int,
                        sh as int,
                        width as int,
                        height as int,
                        j % (width as int),
                        j / (width as int),
                    ),
            decreases n - i,
        {
            proof {
                lemma_cell_of(width as int, height as int, i as int);
            }
            let x: usize = i % width;
            let y: usize = i / width;
            let (ux, tx) = source_position(x, width, sw);
            let (uy, ty) = source_position(y, height, sh);
            let x1: usize = if ux + 1 < sw {
                ux + 1
            } else {
                sw - 1
            };
            let y1: usize = if uy + 1 < sh {
                uy + 1
            } else {
                sh - 1
            };
            let tl: i32 = self.get_pixel(ux, uy);
            let tr: i32 = self.get_pixel(x1, uy);
            let bl: i32 = self.get_pixel(ux, y1);
            let br: i32 = self.get_pixel(x1, y1);
            let p: i32 = lerp_f32(lerp_f32(tl, tx, tr), ty, lerp_f32(bl, tx, br));
            out.push(p);
            i = i + 1;
        }
        assert(out@ =~= resized(self.pixels@, sw as int, sh as int, width as int, height as int));
        LumaImage { width, height, pixels: out }
    }

    /// The samples as one vector per row.
    pub fn grid(&self) -> (r: Vec<Vec<i32>>)
        requires
            self.wf(),
        ensures
            r@.len() == self.spec_height(),
            forall|y: int|
                0 <= y < self.spec_height() ==> (#[trigger] r@[y])@ == self@.subrange(
                    self.spec_width() * y,
                    self.spec_width() * y + self.spec_width(),
                ),
    {
        let width: usize = self.width;
        let height: usize = self.height;
        let mut rows: Vec<Vec<i32>> = Vec::new();
        let mut y: usize = 0;
        while y < height
            invariant
                self.wf(),
                width == self.width,
                height == self.height,
                y <= height,
                rows@.len() == y,
                forall|j: int|
                    0 <= j < y ==> (#[trigger] rows@[j])@ == self.pixels@.subrange(
                        width * j,
                        width * j + width,
                    ),
            decreases height - y,
        {
            let mut row: Vec<i32> = Vec::new();
            let mut x: usize = 0;
            while x < width
                invariant
                    self.wf(),
                    width == self.width,
                    height == self.height,
                    y < height,
                    x <= width,
                    row@.len() == x,
                    forall|i: int| 0 <= i < x ==> #[trigger] row@[i] == self.pixels@[width * y + i],
                decreases width - x,
            {
                row.push(self.get_pixel(x, y));
                x = x + 1;
            }
            proof {
                if width > 0 {
                    lemma_flat_in_range(width as int, height as int, 0, y as int);
                } else {
                    assert(width * y == 0) by (nonlinear_arith)
                        requires
                            width == 0,
                    ;
                }
                assert(row@ =~= self.pixels@.subrange(width * y, width * y + width));
            }
            rows.push(row);
            y = y + 1;
        }
        rows
    }

    /// The samples as 8-bit gray levels: `UNIT` becomes 255, anything
    /// beyond the two ends becomes the nearer end.
    pub fn to_luma8(&self) -> (r: Vec<u8>)
        requires
            self.wf(),
        ensures
            r@.len() == self@.len(),
            forall|i: int| 0 <= i < r@.len() ==> #[trigger] r@[i] == gray_level(self@[i]),
    {
        let n: usize = self.pixels.len();
        let mut out: Vec<u8> = Vec::new();
        let mut i: usize = 0;
        while i < n
            invariant
                n == self.pixels@.len(),
                i <= n,
                out@.len() == i,
                forall|j: int| 0 <= j < i ==> #[trigger] out@[j] == gray_level(self.pixels@[j]),
            decreases n - i,
        {
            out.push(gray_byte(self.pixels[i]));
            i = i + 1;
        }
        out
    }
}

/// `a + t · (b − a)`, where `t` is a fixed-point fraction.
pub open spec fn lerp(a: int, t: int, b: int) -> int {
    clamp_sample(a + trunc_div(t * (b - a), UNIT as int))
}

/// Linear interpolation from `a` (at `t == 0`) to `b` (at `t == UNIT`).
pub fn lerp_f32(a: i32, t: i32, b: i32) -> (r: i32)
    ensures
        r == lerp(a as int, t as int, b as int),
{
    let span: i128 = b as i128 - a as i128;
    assert(-0x8000_0000_0000_0000 <= t * span <= 0x8000_0000_0000_0000) by (nonlinear_arith)
        requires
            -0x8000_0000 <= t <= 0x7fff_ffff,
            -0x1_0000_0000 <= span <= 0x1_0000_0000,
    ;
    let step: i128 = div_toward_zero((t as i128) * span, UNIT as i128);
    assert(-0x8000_0000_0000_0000 <= step <= 0x8000_0000_0000_0000) by (nonlinear_arith)
        requires
            -0x8000_0000_0000_0000 <= t * span <= 0x8000_0000_0000_0000,
            step == trunc_div(t * span, 65536),
    ;
    saturate(a as i128 + step)
}

/// The 8-bit gray level of a sample: the whole part of `255 · p / UNIT`,
/// kept between 0 and 255.
pub open spec fn gray_level(p: i32) -> u8 {
    if p <= 0 {
        0u8
    } else if p >= UNIT {
        255u8
    } else {
        ((255 * p) / (UNIT as int)) as u8
    }
}

/// The 8-bit gray level of one sample.
pub fn gray_byte(p: i32) -> (r: u8)
    ensures
        r == gray_level(p),
{
    if p <= 0 {
        0
    } else if p >= UNIT {
        255
    } else {
        let scaled: i64 = 255 * (p as i64);
        proof {
            vstd::arithmetic::div_mod::lemma_multiply_divide_lt(scaled as int, 65536, 255);
            vstd::arithmetic::div_mod::lemma_div_pos_is_pos(scaled as int, 65536);
        }
        (scaled / 65536) as u8
    }
}

/// The linear-light level of every 8-bit sRGB level, in fixed point: the
/// level divided by 255, passed through the sRGB transfer curve and
/// multiplied by `UNIT`, rounded to the nearest whole number.
pub const LINEAR_LEVELS: [i32; 256] = [
        0, 20, 40, 60, 80, 99, 119, 139,
        159, 179, 199, 219, 241, 264, 288, 313,
        340, 367, 396, 427, 458, 491, 526, 562,
        599, 637, 677, 718, 761, 805, 851, 898,
        947, 997, 1048, 1101, 1156, 1212, 1270, 1330,
        1391, 1453, 1517, 1583, 1651, 1720, 1791, 1863,
        1937, 2013, 2090, 2170, 2250, 2333, 2418, 2504,
        2592, 2681, 2773, 2866, 2961, 3058, 3157, 3258,
        3360, 3464, 3570, 3678, 3788, 3900, 4014, 4129,
        4247, 4366, 4488, 4611, 4736, 4864, 4993, 5124,
        5257, 5392, 5530, 5669, 5810, 5953, 6099, 6246,
        6395, 6547, 6701, 6856, 7014, 7174, 7336, 7500,
        7666, 7834, 8004, 8177, 8352, 8529, 8708, 8889,
        9072, 9258, 9446, 9636, 9828, 10022, 10219, 10418,
        10619, 10822, 11028, 11236, 11446, 11658, 11873, 12090,
        12309, 12531, 12754, 12981, 13209, 13440, 13673, 13909,
        14147, 14387, 14629, 14874, 15122, 15372, 15624, 15878,
        16135, 16394, 16656, 16920, 17187, 17456, 17727, 18001,
        18278, 18556, 18838, 19121, 19408, 19696, 19988, 20281,
        20578, 20876, 21178, 21481, 21788, 22096, 22408, 22722,
        23038, 23357, 23679, 24003, 24329, 24659, 24991, 25325,
        25662, 26002, 26344, 26689, 27036, 27387, 27739, 28095,
        28453, 28813, 29177, 29543, 29911, 30283, 30657, 31033,
        31413, 31795, 32180, 32567, 32957, 33350, 33746, 34144,
        34545, 34949, 35355, 35765, 36177, 36591, 37009, 37429,
        37852, 38278, 38707, 39138, 39572, 40009, 40449, 40892,
        41337, 41786, 42237, 42691, 43147, 43607, 44069, 44534,
        45003, 45474, 45947, 46424, 46904, 47386, 47871, 48360,
        48851, 49345, 49842, 50342, 50844, 51350, 51859, 52370,
        52884, 53402, 53922, 54445, 54972, 55501, 56033, 56568,
        57106, 57647, 58191, 58738, 59288, 59841, 60397, 60956,
        61518, 62083, 62651, 63222, 63796, 64373, 64953, 65536,
];

/// The linear-light level of an 8-bit sRGB level.
pub open spec fn linear_level(component: u8) -> int {
    LINEAR_LEVELS@[component as int] as int
}

/// Luminance of a pixel from its linear-light levels, weighted 0.2126,
/// 0.7152 and 0.0722 and scaled by its alpha.
pub open spec fn colorimetric_luma(p: Rgba) -> int {
    ((2126 * linear_level(p.r) + 7152 * linear_level(p.g) + 722 * linear_level(p.b)) * p.a) / 2550000
}

/// Luminance of a pixel as the plain mean of red, green and blue, scaled by
/// its alpha.
pub open spec fn naive_luma(p: Rgba) -> int {
    ((p.r + p.g + p.b) * p.a * UNIT) / 195075
}

fn rgb_component_to_linear(component: u8) -> (r: i32)
    ensures
        r == linear_level(component),
        0 <= r <= UNIT,
{
    LINEAR_LEVELS[component as usize]
}

fn rgba_to_grayscale(p: Rgba) -> (r: i32)
    ensures
        r == colorimetric_luma(p),
        0 <= r <= UNIT,
{
    let weighted: i64 = 2126 * (rgb_component_to_linear(p.r) as i64) + 7152 * (
    rgb_component_to_linear(p.g) as i64) + 722 * (rgb_component_to_linear(p.b) as i64);
    assert(0 <= weighted * p.a <= 655360000 * 255) by (nonlinear_arith)
        requires
            0 <= weighted <= 655360000,
            0 <= p.a <= 255,
    ;
    let scaled: i64 = weighted * (p.a as i64);
    proof {
        vstd::arithmetic::div_mod::lemma_multiply_divide_le(scaled as int, 2550000, 65536);
        vstd::arithmetic::div_mod::lemma_div_pos_is_pos(scaled as int, 2550000);
    }
    (scaled / 2550000) as i32
}

fn rgba_to_naive_grayscale(p: Rgba) -> (r: i32)
    ensures
        r == naive_luma(p),
        0 <= r <= UNIT,
{
    let sum: i64 = p.r as i64 + p.g as i64 + p.b as i64;
    assert(0 <= sum * p.a <= 765 * 255) by (nonlinear_arith)
        requires
            0 <= sum <= 765,
            0 <= p.a <= 255,
    ;
    let scaled: i64 = sum * (p.a as i64) * 65536;
    proof {
        vstd::arithmetic::div_mod::lemma_multiply_divide_le(scaled as int, 195075, 65536);
        vstd::arithmetic::div_mod::lemma_div_pos_is_pos(scaled as int, 195075);
    }
    (scaled / 195075) as i32
}

impl LumaImage<i32> {
    /// The luminance of every pixel of a colour image, from its
    /// linear-light levels.
    pub fn colorimetric_grayscale_from(value: &ColorImage) -> (r: Self)
        requires
            value.wf(),
        ensures
            r.wf(),
            r.spec_width() == value.spec_width(),
            r.spec_height() == value.spec_height(),
            forall|i: int|
                0 <= i < r@.len() ==> #[trigger] r@[i] == colorimetric_luma(value.pixel(i)),
    {
        proof {
            value.lemma_wf();
        }
        let width: usize = value.width() as usize;
        let height: usize = value.height() as usize;
        let n: usize = width * height;
        let mut lumas: Vec<i32> = Vec::new();
        let mut i: usize = 0;
        while i < n
            invariant
                value.wf(),
                n == value.spec_width() * value.spec_height(),
                i <= n,
                lumas@.len() == i,
                forall|j: int|
                    0 <= j < i ==> #[trigger] lumas@[j] == colorimetric_luma(value.pixel(j)),
            decreases n - i,
        {
            lumas.push(rgba_to_grayscale(value.pixel_at(i)));
            i = i + 1;
        }
        LumaImage { width, height, pixels: lumas }
    }

    /// The luminance of every pixel of a colour image, as the plain mean
    /// of its three colours.
    pub fn naive_grayscale_from(value: &ColorImage) -> (r: Self)
        requires
            value.wf(),
        ensures
            r.wf(),
            r.spec_width() == value.spec_width(),
            r.spec_height() == value.spec_height(),
            forall|i: int| 0 <= i < r@.len() ==> #[trigger] r@[i] == naive_luma(value.pixel(i)),
    {
        proof {
            value.lemma_wf();
        }
        let width: usize = value.width() as usize;
        let height: usize = value.height() as usize;
        let n: usize = width * height;
        let mut lumas: Vec<i32> = Vec::new();
        let mut i: usize = 0;
        while i < n
            invariant
                value.wf(),
                n == value.spec_width() * value.spec_height(),
                i <= n,
                lumas@.len() == i,
                forall|j: int| 0 <= j < i ==> #[trigger] lumas@[j] == naive_luma(value.pixel(j)),
            decreases n - i,
        {
            lumas.push(rgba_to_naive_grayscale(value.pixel_at(i)));
            i = i + 1;
        }
        LumaImage { width, height, pixels: lumas }
    }
}

/// The sample at `(x, y)`, or nothing where the image has no such pixel.
pub open spec fn sample_or_nothing(src: Seq<i32>, width: int, height: int, x: int, y: int) -> int {
    if 0 <= x < width && 0 <= y < height {
        src[flat(width, x, y)] as int
    } else {
        0
    }
}

/// The edge detector leaves at every pixel four times its sample less the
/// samples of its four neighbours, as far as the image has them.
pub proof fn lemma_laplacian(src: Seq<i32>, width: int, height: int, x: int, y: int)
    requires
        0 <= x < width,
        0 <= y < height,
    ensures
        filtered(grid_sum(src, width, height, x, y, laplacian())) == clamp_sample(
            4 * sample_or_nothing(src, width, height, x, y) - sample_or_nothing(
                src,
                width,
                height,
                x - 1,
                y,
            ) - sample_or_nothing(src, width, height, x + 1, y) - sample_or_nothing(
                src,
                width,
                height,
                x,
                y - 1,
            ) - sample_or_nothing(src, width, height, x, y + 1),
        ),
{
    let k = laplacian();
    let outer = grid_row_sum(src, width, height, x, y, k);
    let top = grid_tap(src, width, height, x, y, k, 0);
    let middle = grid_tap(src, width, height, x, y, k, 1);
    let bottom = grid_tap(src, width, height, x, y, k, 2);
    reveal_with_fuel(sum_to, 4);
    assert(kernel_columns(k) == 3);
    assert(outer(0) == top(0) + top(1) + top(2));
    assert(outer(1) == middle(0) + middle(1) + middle(2));
    assert(outer(2) == bottom(0) + bottom(1) + bottom(2));
    let here = sample_or_nothing(src, width, height, x, y);
    let left = sample_or_nothing(src, width, height, x - 1, y);
    let right = sample_or_nothing(src, width, height, x + 1, y);
    let above = sample_or_nothing(src, width, height, x, y - 1);
    let below = sample_or_nothing(src, width, height, x, y + 1);
    assert(top(0) == 0 && top(2) == 0 && bottom(0) == 0 && bottom(2) == 0);
    assert(top(1) == -65536 * above);
    assert(middle(0) == -65536 * left);
    assert(middle(1) == 262144 * here);
    assert(middle(2) == -65536 * right);
    assert(bottom(1) == -65536 * below);
    let v = 4 * here - left - right - above - below;
    assert(grid_sum(src, width, height, x, y, k) == 65536 * v);
    if v >= 0 {
        vstd::arithmetic::div_mod::lemma_div_multiples_vanish(v, 65536);
    } else {
        vstd::arithmetic::div_mod::lemma_div_multiples_vanish(-v, 65536);
    }
}

} // verus!
