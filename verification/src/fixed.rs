//! Fixed-point conventions and the summation toolkit the rest of the crate is
//! specified with.

use vstd::prelude::*;

verus! {

/// The integer that stands for full brightness (1.0) in a sample.
pub const UNIT: i32 = 65536;

/// Largest magnitude of the product of two samples.
pub open spec fn product_bound() -> int {
    0x4000_0000_0000_0000
}

/// `f(0) + f(1) + ... + f(n - 1)`; zero when `n <= 0`.
pub open spec fn sum_to(f: spec_fn(int) -> int, n: int) -> int
    decreases n,
{
    if n <= 0 {
        0
    } else {
        sum_to(f, n - 1) + f(n - 1)
    }
}

/// Quotient rounded toward zero, as the machine's signed division rounds.
pub open spec fn trunc_div(a: int, b: int) -> int {
    if a >= 0 {
        a / b
    } else {
        -((-a) / b)
    }
}

/// `v` limited to the range of a sample.
pub open spec fn clamp_sample(v: int) -> int {
    if v < i32::MIN {
        i32::MIN as int
    } else if v > i32::MAX {
        i32::MAX as int
    } else {
        v
    }
}

/// A sum of `n` terms that all lie in `[lo, hi]` lies in `[n * lo, n * hi]`.
pub proof fn lemma_sum_to_bounds(f: spec_fn(int) -> int, n: int, lo: int, hi: int)
    requires
        0 <= n,
        forall|i: int| 0 <= i < n ==> lo <= #[trigger] f(i) <= hi,
    ensures
        n * lo <= sum_to(f, n) <= n * hi,
    decreases n,
{
    if n > 0 {
        lemma_sum_to_bounds(f, n - 1, lo, hi);
        assert((n - 1) * lo + lo == n * lo) by (nonlinear_arith);
        assert((n - 1) * hi + hi == n * hi) by (nonlinear_arith);
        assert(lo <= f(n - 1) <= hi);
    } else {
        assert(n * lo == 0 && n * hi == 0) by (nonlinear_arith)
            requires
                n == 0,
        ;
    }
}

/// A sum of terms that are not negative is not negative.
pub proof fn lemma_sum_to_nonnegative(f: spec_fn(int) -> int, n: int)
    requires
        forall|i: int| 0 <= i < n ==> 0 <= #[trigger] f(i),
    ensures
        0 <= sum_to(f, n),
    decreases n,
{
    if n > 0 {
        lemma_sum_to_nonnegative(f, n - 1);
        assert(0 <= f(n - 1));
    }
}

/// Two sums whose terms agree below `n` are equal.
pub proof fn lemma_sum_to_agree(f: spec_fn(int) -> int, g: spec_fn(int) -> int, n: int)
    requires
        forall|i: int| 0 <= i < n ==> #[trigger] f(i) == g(i),
    ensures
        sum_to(f, n) == sum_to(g, n),
    decreases n,
{
    if n > 0 {
        lemma_sum_to_agree(f, g, n - 1);
    }
}

/// The product of two samples stays within `product_bound()`.
pub proof fn lemma_sample_product(x: i32, y: i32)
    ensures
        -product_bound() <= x * y <= product_bound(),
{
    assert(-0x4000_0000_0000_0000 <= x * y <= 0x4000_0000_0000_0000) by (nonlinear_arith)
        requires
            -0x8000_0000 <= x <= 0x7fff_ffff,
            -0x8000_0000 <= y <= 0x7fff_ffff,
    ;
}

/// `count` terms of magnitude at most `bound` sum to a magnitude that an
/// `i128` holds, as long as `bound` is at most `product_bound()`.
pub proof fn lemma_scaled_fits(count: int, len: int, bound: int)
    requires
        0 <= count <= len <= usize::MAX,
        0 <= bound <= product_bound(),
    ensures
        count * bound <= len * bound,
        len * bound <= 0x3fff_ffff_ffff_ffff_c000_0000_0000_0000,
{
    assert(count * bound <= len * bound) by (nonlinear_arith)
        requires
            0 <= count <= len,
            0 <= bound,
    ;
    assert(len * bound <= 0xffff_ffff_ffff_ffff * 0x4000_0000_0000_0000) by (nonlinear_arith)
        requires
            0 <= len <= 0xffff_ffff_ffff_ffff,
            0 <= bound <= 0x4000_0000_0000_0000,
    ;
}

/// Signed division by a positive divisor, rounded toward zero.
pub fn div_toward_zero(a: i128, b: i128) -> (q: i128)
    requires
        b > 0,
    ensures
        q == trunc_div(a as int, b as int),
{
    a / b
}

/// Limits a wide value to the range of a sample.
pub fn saturate(v: i128) -> (r: i32)
    ensures
        r == clamp_sample(v as int),
{
    if v < -2147483648 {
        -2147483648
    } else if v > 2147483647 {
        2147483647
    } else {
        v as i32
    }
}

/// Quotient rounded toward zero, for a divisor of either sign.
pub open spec fn quotient(a: int, b: int) -> int {
    if b > 0 {
        trunc_div(a, b)
    } else {
        trunc_div(-a, -b)
    }
}

/// Signed division rounded toward zero.
pub fn divide(a: i128, b: i128) -> (q: i128)
    requires
        b != 0,
        a > i128::MIN,
        b > i128::MIN,
    ensures
        q == quotient(a as int, b as int),
{
    if b > 0 {
        a / b
    } else {
        (-a) / (-b)
    }
}

/// `r` is the whole part of the square root of `n`.
pub open spec fn is_root(n: int, r: int) -> bool {
    0 <= r && r * r <= n < (r + 1) * (r + 1)
}

/// The whole part of the square root of `n`, for `n >= 0`.
pub open spec fn root(n: int) -> int {
    choose|r: int| is_root(n, r)
}

/// A number has one whole square root only.
pub proof fn lemma_root_unique(n: int, a: int, b: int)
    requires
        is_root(n, a),
        is_root(n, b),
    ensures
        a == b,
{
    if a < b {
        assert((a + 1) * (a + 1) <= b * b) by (nonlinear_arith)
            requires
                0 <= a + 1 <= b,
        ;
    } else if b < a {
        assert((b + 1) * (b + 1) <= a * a) by (nonlinear_arith)
            requires
                0 <= b + 1 <= a,
        ;
    }
}

/// The whole part of the square root.
pub fn isqrt(n: u128) -> (r: u64)
    ensures
        is_root(n as int, r as int),
        r == root(n as int),
{
    let mut low: u128 = 0;
    let mut high: u128 = 0x1_0000_0000_0000_0000;
    while high - low > 1
        invariant
            low < high <= 0x1_0000_0000_0000_0000,
            low * low <= n,
            n < high * high,
        decreases high - low,
    {
        let mid: u128 = low + (high - low) / 2;
        assert(mid * mid <= 0xffff_ffff_ffff_ffff * 0xffff_ffff_ffff_ffff) by (nonlinear_arith)
            requires
                0 <= mid <= 0xffff_ffff_ffff_ffff,
        ;
        if mid * mid <= n {
            low = mid;
        } else {
            high = mid;
        }
    }
    proof {
        assert(is_root(n as int, low as int));
        let other = root(n as int);
        lemma_root_unique(n as int, low as int, other);
    }
    low as u64
}

/// A quotient is no larger in magnitude than what was divided.
pub proof fn lemma_quotient_bound(a: int, b: int)
    requires
        b != 0,
    ensures
        a >= 0 ==> -a <= quotient(a, b) <= a,
        a < 0 ==> a <= quotient(a, b) <= -a,
{
    let d = if b > 0 {
        b
    } else {
        -b
    };
    let m = if a >= 0 {
        a
    } else {
        -a
    };
    vstd::arithmetic::div_mod::lemma_div_pos_is_pos(m, d);
    vstd::arithmetic::div_mod::lemma_div_nonincreasing(m, d);
}

} // verus!
