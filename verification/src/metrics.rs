//! Scores that rate how well a chunk of samples matches a glyph bitmap.
//! Higher is better for every one of them.

use vstd::prelude::*;
use crate::fixed::{
    divide, lemma_quotient_bound, lemma_sample_product, lemma_scaled_fits, lemma_sum_to_agree,
    product_bound, quotient, sum_to, UNIT,
};

verus! {

/// An exact quotient of two sums. A zero denominator means that the score is
/// undefined; it is handed on as it is, never replaced by a number.
#[derive(Clone, Copy, Debug)]
pub struct Ratio {
    pub num: i128,
    pub den: i128,
}

impl Ratio {
    /// The denominator is zero.
    pub open spec fn undefined(self) -> bool {
        self.den == 0
    }

    /// Whether the denominator is zero.
    pub fn is_undefined(&self) -> (r: bool)
        ensures
            r == self.undefined(),
    {
        self.den == 0
    }
}

/// The smaller of two numbers.
pub open spec fn min_int(a: int, b: int) -> int {
    if a <= b {
        a
    } else {
        b
    }
}

/// The larger of two numbers.
pub open spec fn max_int(a: int, b: int) -> int {
    if a >= b {
        a
    } else {
        b
    }
}

/// The magnitude of a number.
pub open spec fn abs_int(a: int) -> int {
    if a >= 0 {
        a
    } else {
        -a
    }
}

/// The product of the two samples at place `i`.
pub open spec fn dot_term(xs: Seq<i32>, ys: Seq<i32>) -> spec_fn(int) -> int {
    |i: int| xs[i] * ys[i]
}

/// The smaller of the two samples at place `i`.
pub open spec fn min_term(xs: Seq<i32>, ys: Seq<i32>) -> spec_fn(int) -> int {
    |i: int| min_int(xs[i] as int, ys[i] as int)
}

/// The larger of the two samples at place `i`.
pub open spec fn max_term(xs: Seq<i32>, ys: Seq<i32>) -> spec_fn(int) -> int {
    |i: int| max_int(xs[i] as int, ys[i] as int)
}

/// `UNIT − (x − y)` for the two samples at place `i`.
pub open spec fn cover_term(xs: Seq<i32>, ys: Seq<i32>) -> spec_fn(int) -> int {
    |i: int| UNIT - (xs[i] - ys[i])
}

/// The magnitude of the sum of the two samples at place `i`.
pub open spec fn abs_sum_term(xs: Seq<i32>, ys: Seq<i32>) -> spec_fn(int) -> int {
    |i: int| abs_int(xs[i] + ys[i])
}

/// The first sample at place `i` where the second is above zero, and
/// nothing elsewhere.
pub open spec fn lit_term(xs: Seq<i32>, ys: Seq<i32>) -> spec_fn(int) -> int {
    |i: int|
        if ys[i] > 0 {
            xs[i] as int
        } else {
            0
        }
}

/// The sample at place `i`.
pub open spec fn sample_term(xs: Seq<i32>) -> spec_fn(int) -> int {
    |i: int| xs[i] as int
}

/// Sum of the samples of `xs`.
pub open spec fn total(xs: Seq<i32>) -> int {
    sum_to(sample_term(xs), xs.len() as int)
}

/// Sum of the products of corresponding samples.
pub open spec fn dot_product(xs: Seq<i32>, ys: Seq<i32>) -> int {
    sum_to(dot_term(xs, ys), xs.len() as int)
}

/// Sum of the smaller of each pair of corresponding samples.
pub open spec fn min_sum(xs: Seq<i32>, ys: Seq<i32>) -> int {
    sum_to(min_term(xs, ys), xs.len() as int)
}

/// Sum of the larger of each pair of corresponding samples.
pub open spec fn max_sum(xs: Seq<i32>, ys: Seq<i32>) -> int {
    sum_to(max_term(xs, ys), xs.len() as int)
}

/// Sum over the pairs of `UNIT - (x - y)`.
pub open spec fn cover_sum(xs: Seq<i32>, ys: Seq<i32>) -> int {
    sum_to(cover_term(xs, ys), xs.len() as int)
}

/// The smaller of the two covers: `x` over `y` and `y` over `x`.
pub open spec fn occlusion(xs: Seq<i32>, ys: Seq<i32>) -> int {
    min_int(cover_sum(xs, ys), cover_sum(ys, xs))
}

/// The sum of the magnitudes of `x + y`, negated.
pub open spec fn avg_color(xs: Seq<i32>, ys: Seq<i32>) -> int {
    -sum_to(abs_sum_term(xs, ys), xs.len() as int)
}

/// The sum of `x` over the places where `y` is above zero, negated.
pub open spec fn toward_clear(xs: Seq<i32>, ys: Seq<i32>) -> int {
    -sum_to(lit_term(xs, ys), xs.len() as int)
}

/// Sum of the samples of a slice.
pub fn sum_samples(xs: &[i32]) -> (r: i128)
    ensures
        r == total(xs@),
        -(xs@.len() * 0x8000_0000) <= r <= xs@.len() * 0x8000_0000,
{
    let n: usize = xs.len();
    let mut acc: i128 = 0;
    let mut i: usize = 0;
    let ghost f = sample_term(xs@);
    while i < n
        invariant
            n == xs@.len(),
            i <= n,
            f == sample_term(xs@),
            acc == sum_to(f, i as int),
            -(i * 0x8000_0000) <= acc <= i * 0x8000_0000,
        decreases n - i,
    {
        acc = acc + xs[i] as i128;
        i = i + 1;
    }
    acc
}

/// Σ x·y over the pairs of corresponding samples.
pub fn dot_score(xs: &[i32], ys: &[i32]) -> (r: i128)
    requires
        xs@.len() == ys@.len(),
    ensures
        r == dot_product(xs@, ys@),
        -score_bound() <= r <= score_bound(),
{
    let n: usize = xs.len();
    proof {
        lemma_scaled_fits(n as int, n as int, product_bound());
    }
    let mut acc: i128 = 0;
    let mut i: usize = 0;
    let ghost f = dot_term(xs@, ys@);
    while i < n
        invariant
            n == xs@.len(),
            n == ys@.len(),
            i <= n,
            f == dot_term(xs@, ys@),
            acc == sum_to(f, i as int),
            -(i * product_bound()) <= acc <= i * product_bound(),
        decreases n - i,
    {
        proof {
            lemma_sample_product(xs@[i as int], ys@[i as int]);
            lemma_scaled_fits(i as int, n as int, product_bound());
            lemma_scaled_fits(i + 1, n as int, product_bound());
            assert((i + 1) * product_bound() == i * product_bound() + product_bound())
                by (nonlinear_arith);
        }
        acc = acc + (xs[i] as i128) * (ys[i] as i128);
        i = i + 1;
    }
    acc
}

/// Σ min(x, y) / Σ max(x, y), as the exact pair of sums. The score is
/// undefined where the second sum is zero, and the result then says so.
pub fn jaccard_score(xs: &[i32], ys: &[i32]) -> (r: Ratio)
    requires
        xs@.len() == ys@.len(),
    ensures
        r.num == min_sum(xs@, ys@),
        r.den == max_sum(xs@, ys@),
        -(xs@.len() * 0x8000_0000) <= r.num <= xs@.len() * 0x8000_0000,
        -(xs@.len() * 0x8000_0000) <= r.den <= xs@.len() * 0x8000_0000,
{
    let n: usize = xs.len();
    let mut lower: i128 = 0;
    let mut upper: i128 = 0;
    let mut i: usize = 0;
    let ghost f = min_term(xs@, ys@);
    let ghost g = max_term(xs@, ys@);
    while i < n
        invariant
            n == xs@.len(),
            n == ys@.len(),
            i <= n,
            f == min_term(xs@, ys@),
            g == max_term(xs@, ys@),
            lower == sum_to(f, i as int),
            upper == sum_to(g, i as int),
            -(i * 0x8000_0000) <= lower <= i * 0x8000_0000,
            -(i * 0x8000_0000) <= upper <= i * 0x8000_0000,
        decreases n - i,
    {
        let x: i32 = xs[i];
        let y: i32 = ys[i];
        if x <= y {
            lower = lower + x as i128;
            upper = upper + y as i128;
        } else {
            lower = lower + y as i128;
            upper = upper + x as i128;
        }
        i = i + 1;
    }
    Ratio { num: lower, den: upper }
}

/// min(Σ (UNIT − (x − y)), Σ (UNIT − (y − x))).
pub fn occlusion_score(xs: &[i32], ys: &[i32]) -> (r: i128)
    requires
        xs@.len() == ys@.len(),
    ensures
        r == occlusion(xs@, ys@),
        -score_bound() <= r <= score_bound(),
{
    let n: usize = xs.len();
    proof {
        lemma_scaled_fits(n as int, n as int, 0x2_0000_0000);
    }
    let mut over: i128 = 0;
    let mut under: i128 = 0;
    let mut i: usize = 0;
    let ghost f = cover_term(xs@, ys@);
    let ghost g = cover_term(ys@, xs@);
    while i < n
        invariant
            n == xs@.len(),
            n == ys@.len(),
            i <= n,
            f == cover_term(xs@, ys@),
            g == cover_term(ys@, xs@),
            over == sum_to(f, i as int),
            under == sum_to(g, i as int),
            -(i * 0x2_0000_0000) <= over <= i * 0x2_0000_0000,
            -(i * 0x2_0000_0000) <= under <= i * 0x2_0000_0000,
        decreases n - i,
    {
        let x: i128 = xs[i] as i128;
        let y: i128 = ys[i] as i128;
        over = over + (UNIT as i128 - (x - y));
        under = under + (UNIT as i128 - (y - x));
        i = i + 1;
    }
    if over <= under {
        over
    } else {
        under
    }
}

/// −Σ |x + y|.
pub fn avg_color_score(xs: &[i32], ys: &[i32]) -> (r: i128)
    requires
        xs@.len() == ys@.len(),
    ensures
        r == avg_color(xs@, ys@),
        -score_bound() <= r <= score_bound(),
{
    let n: usize = xs.len();
    proof {
        lemma_scaled_fits(n as int, n as int, 0x1_0000_0000);
    }
    let mut acc: i128 = 0;
    let mut i: usize = 0;
    let ghost f = abs_sum_term(xs@, ys@);
    while i < n
        invariant
            n == xs@.len(),
            n == ys@.len(),
            i <= n,
            f == abs_sum_term(xs@, ys@),
            acc == sum_to(f, i as int),
            0 <= acc <= i * 0x1_0000_0000,
        decreases n - i,
    {
        let s: i128 = xs[i] as i128 + ys[i] as i128;
        if s >= 0 {
            acc = acc + s;
        } else {
            acc = acc - s;
        }
        i = i + 1;
    }
    -acc
}

/// −Σ x over the positions where y > 0.
pub fn movement_toward_clear(xs: &[i32], ys: &[i32]) -> (r: i128)
    requires
        xs@.len() == ys@.len(),
    ensures
        r == toward_clear(xs@, ys@),
        -score_bound() <= r <= score_bound(),
{
    let n: usize = xs.len();
    proof {
        lemma_scaled_fits(n as int, n as int, 0x8000_0000);
    }
    let mut acc: i128 = 0;
    let mut i: usize = 0;
    let ghost f = lit_term(xs@, ys@);
    while i < n
        invariant
            n == xs@.len(),
            n == ys@.len(),
            i <= n,
            f == lit_term(xs@, ys@),
            acc == sum_to(f, i as int),
            -(i * 0x8000_0000) <= acc <= i * 0x8000_0000,
        decreases n - i,
    {
        if ys[i] > 0 {
            acc = acc + xs[i] as i128;
        }
        i = i + 1;
    }
    -acc
}

/// The dot product does not depend on the order of its two arguments.
pub proof fn lemma_dot_symmetric(xs: Seq<i32>, ys: Seq<i32>)
    requires
        xs.len() == ys.len(),
    ensures
        dot_product(xs, ys) == dot_product(ys, xs),
{
    let f = dot_term(xs, ys);
    let g = dot_term(ys, xs);
    assert forall|i: int| 0 <= i < xs.len() implies #[trigger] f(i) == g(i) by {
        assert(xs[i] * ys[i] == ys[i] * xs[i]) by (nonlinear_arith);
    }
    lemma_sum_to_agree(f, g, xs.len() as int);
}

/// The two sums of the overlap score do not depend on the order of the
/// arguments either.
pub proof fn lemma_jaccard_symmetric(xs: Seq<i32>, ys: Seq<i32>)
    requires
        xs.len() == ys.len(),
    ensures
        min_sum(xs, ys) == min_sum(ys, xs),
        max_sum(xs, ys) == max_sum(ys, xs),
{
    lemma_sum_to_agree(min_term(xs, ys), min_term(ys, xs), xs.len() as int);
    lemma_sum_to_agree(max_term(xs, ys), max_term(ys, xs), xs.len() as int);
}

/// The scores that compare a chunk with a glyph's bitmap sample by sample.
#[derive(Clone, Copy, Debug, PartialEq, Eq)]
pub enum Metric {
    Dot,
    Jaccard,
    Occlusion,
    AvgColor,
    TowardClear,
}

/// The score of a metric as one number, or `None` where it is undefined.
/// The overlap score is its quotient in fixed point.
pub open spec fn metric_score(metric: Metric, xs: Seq<i32>, ys: Seq<i32>) -> Option<int> {
    match metric {
        Metric::Dot => Some(dot_product(xs, ys)),
        Metric::Jaccard => if max_sum(xs, ys) == 0 {
            None
        } else {
            Some(quotient(min_sum(xs, ys) * UNIT, max_sum(xs, ys)))
        },
        Metric::Occlusion => Some(occlusion(xs, ys)),
        Metric::AvgColor => Some(avg_color(xs, ys)),
        Metric::TowardClear => Some(toward_clear(xs, ys)),
    }
}

impl Metric {
    /// The score of `xs` against `ys`, or `None` where it is undefined.
    pub fn score(&self, xs: &[i32], ys: &[i32]) -> (r: Option<i128>)
        requires
            xs@.len() == ys@.len(),
        ensures
            r.is_some() == metric_score(*self, xs@, ys@).is_some(),
            r matches Some(v) ==> metric_score(*self, xs@, ys@) == Some(v as int),
            r matches Some(v) ==> -score_bound() <= v <= score_bound(),
    {
        let n: usize = xs.len();
        proof {
            lemma_scaled_fits(n as int, n as int, 0x8000_0000);
        }
        match self {
            Metric::Dot => Some(dot_score(xs, ys)),
            Metric::Jaccard => {
                let ratio: Ratio = jaccard_score(xs, ys);
                if ratio.den == 0 {
                    None
                } else {
                    let q: i128 = divide(ratio.num * 65536, ratio.den);
                    proof {
                        lemma_quotient_bound(ratio.num * 65536, ratio.den as int);
                    }
                    Some(q)
                }
            },
            Metric::Occlusion => Some(occlusion_score(xs, ys)),
            Metric::AvgColor => Some(avg_color_score(xs, ys)),
            Metric::TowardClear => Some(movement_toward_clear(xs, ys)),
        }
    }
}

/// No score of a metric is larger in magnitude than this.
pub open spec fn score_bound() -> int {
    0x3fff_ffff_ffff_ffff_c000_0000_0000_0000
}

} // verus!
