use terrain_stream::chunks::{
    biome_blend, clamp, detect_biome, get_height, get_surface_normal, should_tree_spawn, Biome,
};
use terrain_stream::noise::{lerp, NoiseGenerators};

#[test]
fn height_deterministic_across_calls() {
    let noise = NoiseGenerators::new(12345);
    let a = get_height(123456, -654321, &noise);
    let b = get_height(123456, -654321, &noise);
    assert_eq!(a, b);
}

#[test]
fn height_deterministic_across_instances() {
    let n1 = NoiseGenerators::new(12345);
    let n2 = NoiseGenerators::new(12345);
    for &(x, z) in &[(0i64, 0i64), (96000, 96000), (-1_000_000, 2_000_000), (7, -9)] {
        assert_eq!(get_height(x, z, &n1), get_height(x, z, &n2));
    }
}

#[test]
fn height_differs_between_seeds() {
    let n1 = NoiseGenerators::new(12345);
    let n2 = NoiseGenerators::new(54321);
    let mut same = true;
    for i in 0..50i64 {
        let x = i * 77_777;
        if get_height(x, -x, &n1) != get_height(x, -x, &n2) {
            same = false;
        }
    }
    assert!(!same);
}

#[test]
fn noise_values_in_unit_range() {
    let noise = NoiseGenerators::new(999);
    for i in -40..40i64 {
        let v = noise.height.get(i * 333, i * 271);
        assert!(-1000 <= v && v <= 1000);
        let b = noise.biome.get(i * 12_345, -i * 54_321);
        assert!(-1000 <= b && b <= 1000);
    }
}

#[test]
fn exact_noise_values() {
    let noise = NoiseGenerators::new(12345);
    assert_eq!(noise.height.get(0, 0), 594);
    assert_eq!(noise.height.get(123_456, -654_321), -486);
}

#[test]
fn exact_height_values() {
    let noise = NoiseGenerators::new(12345);
    assert_eq!(get_height(0, 0, &noise), 15_180);
    assert_eq!(get_height(1_000_000, 2_000_000, &noise), -10_262);
    assert_eq!(get_height(-3_333_333, 7_777_777, &noise), 839);
}

#[test]
fn height_stays_in_stated_range() {
    let noise = NoiseGenerators::new(2024);
    for i in -30..30i64 {
        let h = get_height(i * 1_234_567, i * i * 1000, &noise);
        assert!(-22_000 <= h && h <= 28_000);
    }
}

#[test]
fn lerp_exact_values() {
    assert_eq!(lerp(30, 250, 500), 140);
    assert_eq!(lerp(0, 1000, 250), 250);
    assert_eq!(lerp(-1000, 1000, 0), -1000);
    assert_eq!(lerp(-1000, 1000, 1000), 1000);
}

#[test]
fn clamp_exact_values() {
    assert_eq!(clamp(-5, 0, 1000), 0);
    assert_eq!(clamp(1500, 0, 1000), 1000);
    assert_eq!(clamp(444, 0, 1000), 444);
}

#[test]
fn blend_factor_in_unit_interval() {
    let noise = NoiseGenerators::new(12345);
    for i in 0..200i64 {
        let t = biome_blend(i * 50_000, -i * 25_000, &noise);
        assert!(0 <= t && t <= 1000);
    }
}

#[test]
fn blend_dense_line_bounded_first_differences() {
    // A dense line through a biome transition: the blend factor changes,
    // but never by more than 8 thousandths per fixed-point step.
    let noise = NoiseGenerators::new(12345);
    let mut prev = biome_blend(190_000, 0, &noise);
    let mut changed = false;
    for x in 190_001..230_000i64 {
        let cur = biome_blend(x, 0, &noise);
        assert!((cur - prev).abs() <= 8);
        if cur != prev {
            changed = true;
        }
        prev = cur;
    }
    assert!(changed);
    let mut prev = biome_blend(0, 150_000, &noise);
    for z in 150_001..160_000i64 {
        let cur = biome_blend(0, z, &noise);
        assert!((cur - prev).abs() <= 8);
        prev = cur;
    }
}

#[test]
fn biome_threshold_consistency() {
    // Plains exactly where the blend remap is clamped to zero or sits at
    // its lower boundary: a Plains verdict forces a small blend factor.
    let noise = NoiseGenerators::new(12345);
    assert_eq!(detect_biome(0, 0, &noise), Biome::Plains);
    assert_eq!(detect_biome(250_000, 0, &noise), Biome::Forest);
    for i in 0..100i64 {
        let x = i * 33_333;
        let b = detect_biome(x, 777, &noise);
        let t = biome_blend(x, 777, &noise);
        if b == Biome::Plains {
            assert_eq!(t, 0);
        } else {
            assert!(t >= 0);
        }
    }
}

#[test]
fn tree_spawn_deterministic_and_clustered() {
    let noise = NoiseGenerators::new(12345);
    assert!(!should_tree_spawn(0, 0, &noise));
    assert!(should_tree_spawn(807_000, 96_000, &noise));
    assert_eq!(
        should_tree_spawn(807_000, 96_000, &noise),
        should_tree_spawn(807_000, 96_000, &noise)
    );
}

#[test]
fn surface_normal_matches_central_differences() {
    let noise = NoiseGenerators::new(12345);
    let (nx, ny, nz) = get_surface_normal(5_000, 7_000, &noise);
    assert_eq!(ny, 200);
    let dhx = get_height(5_100, 7_000, &noise) - get_height(4_900, 7_000, &noise);
    let dhz = get_height(5_000, 7_100, &noise) - get_height(5_000, 6_900, &noise);
    assert_eq!(nx, -dhx);
    assert_eq!(nz, -dhz);
    assert!(ny > 0);
}
