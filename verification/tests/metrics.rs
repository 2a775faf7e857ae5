use glyph_art::fixed::{div_toward_zero, divide, isqrt, saturate, UNIT};
use glyph_art::metrics::{
    avg_color_score, dot_score, jaccard_score, movement_toward_clear, occlusion_score, sum_samples,
    Metric,
};

#[test]
fn test_dot() {
    let a = vec![1, 2, 3, 4, 5, -1, 2, 0, 3, 1, 1];
    let b = vec![-1, 3, 4, 5, -1, 3, 4, 3, 5, 2, 1];
    let p = dot_score(&a, &b);
    assert_eq!(p as f64, 55.);
}

#[test]
fn test_jaccard() {
    let a = vec![1, 2, 3, 4, 5, -1, 2, 0, 3, 1, 1];
    let b = vec![-1, 3, 4, 5, -1, 3, 4, 3, 5, 2, 1];
    let p = jaccard_score(&a, &b);
    assert_eq!(p.num as f64 / p.den as f64, 13. / 36.);
}

#[test]
fn jaccard_gives_both_sums() {
    let a = vec![1, 2, 3, 4, 5, -1, 2, 0, 3, 1, 1];
    let b = vec![-1, 3, 4, 5, -1, 3, 4, 3, 5, 2, 1];
    let p = jaccard_score(&a, &b);
    assert_eq!((p.num, p.den), (13, 36));
    assert!(!p.is_undefined());
}

#[test]
fn dot_is_symmetric() {
    let a = vec![1, 2, 3, 4, 5, -1, 2, 0, 3, 1, 1];
    let b = vec![-1, 3, 4, 5, -1, 3, 4, 3, 5, 2, 1];
    assert_eq!(dot_score(&a, &b), dot_score(&b, &a));
    assert_eq!(dot_score(&b, &a), 55);
}

#[test]
fn dot_of_the_largest_samples_does_not_overflow() {
    let a = vec![i32::MIN; 4];
    let b = vec![i32::MIN; 4];
    assert_eq!(dot_score(&a, &b), 4 * (1i128 << 62));
    let c = vec![i32::MAX; 4];
    assert_eq!(dot_score(&a, &c), 4 * (i32::MIN as i128) * (i32::MAX as i128));
}

#[test]
fn jaccard_of_nothing_is_undefined() {
    let zeros = vec![0, 0, 0];
    let p = jaccard_score(&zeros, &zeros);
    assert_eq!((p.num, p.den), (0, 0));
    assert!(p.is_undefined());
    assert_eq!(Metric::Jaccard.score(&zeros, &zeros), None);
    let empty: Vec<i32> = Vec::new();
    assert!(jaccard_score(&empty, &empty).is_undefined());
}

#[test]
fn jaccard_is_symmetric() {
    let a = vec![3, 0, 7, -2];
    let b = vec![1, 5, 7, 4];
    let p = jaccard_score(&a, &b);
    let q = jaccard_score(&b, &a);
    assert_eq!((p.num, p.den), (1 + 0 + 7 - 2, 3 + 5 + 7 + 4));
    assert_eq!((p.num, p.den), (q.num, q.den));
}

#[test]
fn occlusion_takes_the_smaller_cover() {
    // x - y: 10, -4, 0; the two covers are 3*UNIT - 6 and 3*UNIT + 6.
    let a = vec![10, 1, 2];
    let b = vec![0, 5, 2];
    let unit = UNIT as i128;
    assert_eq!(occlusion_score(&a, &b), 3 * unit - 6);
    assert_eq!(occlusion_score(&b, &a), 3 * unit - 6);
}

#[test]
fn avg_color_is_the_negated_sum_of_magnitudes() {
    let a = vec![1, -5, 3];
    let b = vec![2, 1, -3];
    // |3| + |-4| + |0|
    assert_eq!(avg_color_score(&a, &b), -7);
}

#[test]
fn movement_toward_clear_counts_where_the_glyph_is_lit() {
    let a = vec![4, 5, 6, 7];
    let b = vec![1, 0, -1, 9];
    assert_eq!(movement_toward_clear(&a, &b), -(4 + 7));
}

#[test]
fn metric_scores() {
    let a = vec![2, 4];
    let b = vec![4, 4];
    assert_eq!(Metric::Dot.score(&a, &b), Some(24));
    // (2 + 4) * UNIT / (4 + 4)
    assert_eq!(Metric::Jaccard.score(&a, &b), Some(6 * 65536 / 8));
    assert_eq!(Metric::Occlusion.score(&a, &b), Some(2 * 65536 - 2));
    assert_eq!(Metric::AvgColor.score(&a, &b), Some(-14));
    assert_eq!(Metric::TowardClear.score(&a, &b), Some(-6));
}

#[test]
fn jaccard_score_with_a_negative_sum_rounds_toward_zero() {
    let a = vec![-3, 1];
    let b = vec![-1, 1];
    // min sum -2, max sum 0: undefined
    assert_eq!(Metric::Jaccard.score(&a, &b), None);
    let c = vec![-5, 1];
    let d = vec![-4, 1];
    // min sum -4, max sum -3: 4 * 65536 / 3 = 87381.33
    assert_eq!(Metric::Jaccard.score(&c, &d), Some(87381));
    let e = vec![-5, 3];
    let f = vec![1, 2];
    // min sum -3, max sum 4: -3 * 65536 / 4
    assert_eq!(Metric::Jaccard.score(&e, &f), Some(-49152));
}

#[test]
fn sums_of_samples() {
    assert_eq!(sum_samples(&[]), 0);
    assert_eq!(sum_samples(&[1, -2, 30]), 29);
    assert_eq!(sum_samples(&[i32::MAX, i32::MAX]), 2 * (i32::MAX as i128));
}

#[test]
fn whole_square_roots() {
    assert_eq!(isqrt(0), 0);
    assert_eq!(isqrt(1), 1);
    assert_eq!(isqrt(3), 1);
    assert_eq!(isqrt(4), 2);
    assert_eq!(isqrt(17), 4);
    assert_eq!(isqrt(99), 9);
    assert_eq!(isqrt(100), 10);
    assert_eq!(isqrt(u128::MAX), u64::MAX);
    assert_eq!(isqrt((1u128 << 64) - 1), (1u64 << 32) - 1);
    assert_eq!(isqrt(1u128 << 64), 1u64 << 32);
}

#[test]
fn division_rounds_toward_zero() {
    assert_eq!(div_toward_zero(7, 2), 3);
    assert_eq!(div_toward_zero(-7, 2), -3);
    assert_eq!(divide(7, -2), -3);
    assert_eq!(divide(-7, -2), 3);
    assert_eq!(divide(-7, 2), -3);
    assert_eq!(divide(0, -5), 0);
}

#[test]
fn saturation_keeps_the_range_of_a_sample() {
    assert_eq!(saturate(5), 5);
    assert_eq!(saturate(-5), -5);
    assert_eq!(saturate(i32::MAX as i128 + 1), i32::MAX);
    assert_eq!(saturate(i32::MIN as i128 - 1), i32::MIN);
    assert_eq!(saturate(i128::MAX), i32::MAX);
    assert_eq!(saturate(i128::MIN), i32::MIN);
}

#[test]
fn bench_dot() {
    let iterations = 10000000;
    let size = 7 * 13; // size of bitocra characters

    let mut a = Vec::new();
    let mut b = Vec::new();
    for i in 0..size {
        a.push(i);
        b.push(i)
    }

    let p = dot_score(&a, &b);

    let t0 = std::time::Instant::now();
    let mut total1: f64 = 0.;
    for _ in 0..iterations {
        total1 += dot_score(&a, &b) as f64;
    }
    println!("reg:  {:?}", t0.elapsed());

    println!("expected sum: {}", p);
    let t0 = std::time::Instant::now();
    let mut total2: f64 = 0.;
    for _ in 0..iterations {
        total2 += dot_score(&b, &a) as f64;
    }
    assert_eq!(total1, total2);
    println!("simd: {:?}", t0.elapsed());
}

#[test]
fn bench_jaccard() {
    let iterations = 10000000;
    let size = 7 * 13; // size of bitocra characters

    let mut a = Vec::new();
    let mut b = Vec::new();
    for i in 0..size {
        a.push(i);
        b.push(i)
    }

    let p = jaccard_score(&a, &b);

    let t0 = std::time::Instant::now();
    let mut total1: f64 = 0.;
    for _ in 0..iterations {
        let q = jaccard_score(&a, &b);
        total1 += q.num as f64 / q.den as f64;
    }
    println!("reg:  {:?}", t0.elapsed());

    println!("expected sum: {}", p.num as f64 / p.den as f64);
    let t0 = std::time::Instant::now();
    let mut total2: f64 = 0.;
    for _ in 0..iterations {
        let q = jaccard_score(&b, &a);
        total2 += q.num as f64 / q.den as f64;
    }
    assert_eq!(total1, total2);
    println!("simd: {:?}", t0.elapsed());
}
