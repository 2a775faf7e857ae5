use glyph_art::noise::NoiseSource;

#[test]
fn a_silent_source_gives_nothing() {
    let s = NoiseSource::silent();
    assert_eq!(s.scale, 0);
    for draw in 0..50u128 {
        assert_eq!(s.sample(draw), 0);
    }
    let t = NoiseSource::new(12345, 0);
    assert_eq!(t.sample(7), 0);
    assert_eq!(t.sample(u128::MAX), 0);
}

#[test]
fn offsets_stay_below_the_scale() {
    let s = NoiseSource::new(42, 10);
    let mut seen = [false; 10];
    for draw in 0..500u128 {
        let v = s.sample(draw);
        assert!(v < 10);
        seen[v as usize] = true;
    }
    assert!(seen.iter().filter(|b| **b).count() > 1);
    let one = NoiseSource::new(42, 1);
    for draw in 0..50u128 {
        assert_eq!(one.sample(draw), 0);
    }
}

#[test]
fn offsets_depend_on_seed_and_draw_alone() {
    let a = NoiseSource::new(7, 1000);
    let b = NoiseSource::new(7, 1000);
    for draw in 0..100u128 {
        assert_eq!(a.sample(draw), b.sample(draw));
    }
}

#[test]
fn the_first_offset_of_seed_zero() {
    // seed 0: the first step gives 1442695040888963407; draw 0 adds nothing;
    // the second step gives (that * 6364136223846793005 + 1442695040888963407) mod 2^64.
    let first: u128 = 1442695040888963407;
    let second: u128 = (first * 6364136223846793005 + 1442695040888963407) % (1u128 << 64);
    let expected = ((second >> 32) % 1000) as u64;
    assert_eq!(NoiseSource::new(0, 1000).sample(0), expected);
    let third: u128 = ((first + 5) * 6364136223846793005 + 1442695040888963407) % (1u128 << 64);
    assert_eq!(NoiseSource::new(0, 1000).sample(5), ((third >> 32) % 1000) as u64);
}

#[test]
fn every_worker_has_a_source_of_its_own() {
    let base = NoiseSource::new(99, 50);
    let w0 = base.for_slice(0);
    let w1 = base.for_slice(1);
    assert_eq!(w0.scale, 50);
    assert_eq!(w1.scale, 50);
    assert_ne!(w0.seed, w1.seed);
    let expected0 = ((99u128 * 6364136223846793005 + 1442695040888963407) % (1u128 << 64)) as u64;
    let expected1 = ((100u128 * 6364136223846793005 + 1442695040888963407) % (1u128 << 64)) as u64;
    assert_eq!(w0.seed, expected0);
    assert_eq!(w1.seed, expected1);
    assert_eq!(base.for_slice(1).seed, w1.seed);
}
