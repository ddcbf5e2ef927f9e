use ray_tracer::color::{write_color, Rgb};
use ray_tracer::fixed::SCALE;
use ray_tracer::math::{
    cross, dot, random, random_between, random_on_hemisphere, random_unit_vector, unit_vector,
    Interval, Vec3,
};

const S: i64 = SCALE;

#[test]
fn vec3_componentwise_ops() {
    let u = Vec3::new(S, 2 * S, 3 * S);
    let v = Vec3::new(4 * S, 5 * S, 6 * S);
    assert_eq!(u.add(v), Vec3::new(5 * S, 7 * S, 9 * S));
    assert_eq!(v.sub(u), Vec3::new(3 * S, 3 * S, 3 * S));
    assert_eq!(u.neg(), Vec3::new(-S, -2 * S, -3 * S));
    assert_eq!(u.scale(2 * S), Vec3::new(2 * S, 4 * S, 6 * S));
    assert_eq!(u.mul(v), Vec3::new(4 * S, 10 * S, 18 * S));
    assert_eq!(v.div(2 * S), Vec3::new(2 * S, (5 * S) / 2, 3 * S));
    let mut w = u;
    w.add_assign(v);
    assert_eq!(w, Vec3::new(5 * S, 7 * S, 9 * S));
    assert_eq!(u.x(), S);
    assert_eq!(u.y(), 2 * S);
    assert_eq!(u.z(), 3 * S);
}

#[test]
fn dot_and_cross_products() {
    let u = Vec3::new(S, 2 * S, 3 * S);
    let v = Vec3::new(4 * S, 5 * S, 6 * S);
    assert_eq!(dot(u, v), 32 * S);
    assert_eq!(cross(Vec3::new(S, 0, 0), Vec3::new(0, S, 0)), Vec3::new(0, 0, S));
    assert_eq!(cross(Vec3::new(0, S, 0), Vec3::new(S, 0, 0)), Vec3::new(0, 0, -S));
}

#[test]
fn length_of_three_four_five_triangle() {
    let v = Vec3::new(3 * S, 4 * S, 0);
    assert_eq!(v.length_squared(), 25 * S);
    assert_eq!(v.length(), 5 * S);
}

#[test]
fn unit_vector_scales_down() {
    let v = Vec3::new(3 * S, 4 * S, 0);
    // 0.6 and 0.8, truncated toward zero.
    let u = unit_vector(v);
    assert_eq!(u, Vec3::new(39321, 52428, 0));
    let w = unit_vector(Vec3::new(0, 0, -7 * S));
    assert_eq!(w, Vec3::new(0, 0, -S));
}

#[test]
fn interval_contains_is_inclusive_and_surrounds_is_strict() {
    let iv = Interval::new(0, 10);
    assert!(iv.contains(0) && iv.contains(10) && iv.contains(5));
    assert!(!iv.contains(-1) && !iv.contains(11));
    assert!(iv.surrounds(5) && !iv.surrounds(0) && !iv.surrounds(10));
    assert_eq!(iv.max(), 10);
    assert_eq!(iv.size(), 10);
}

#[test]
fn empty_interval_contains_nothing_and_universe_everything() {
    let e = Interval::empty();
    assert!(!e.contains(0) && !e.contains(i64::MIN) && !e.contains(i64::MAX));
    let u = Interval::universe();
    assert!(u.contains(0) && u.contains(i64::MIN) && u.contains(i64::MAX));
}

#[test]
fn clamp_saturates_and_is_idempotent() {
    let iv = Interval::new(-S, S);
    assert_eq!(iv.clamp(i64::MAX), S);
    assert_eq!(iv.clamp(i64::MIN), -S);
    assert_eq!(iv.clamp(12345), 12345);
    for x in [i64::MIN, -S - 1, -S, 0, S, S + 1, i64::MAX] {
        let once = iv.clamp(x);
        assert_eq!(iv.clamp(once), once);
        assert!(-S <= once && once <= S);
    }
}

#[test]
fn quantize_zero_one_and_ceiling() {
    // 0.0 -> 0; 1.0 clamps to 0.999 -> 255; 0.999 itself -> 255.
    let rgb = write_color(Vec3::new(0, S, 65470));
    assert_eq!(rgb, Rgb { r: 0, g: 255, b: 255 });
    // 0.5 -> 128, and values past one still clamp to 255.
    let mid = write_color(Vec3::new(S / 2, 10 * S, -3));
    assert_eq!(mid, Rgb { r: 128, g: 255, b: 0 });
}

#[test]
fn random_scalars_stay_in_range() {
    for _ in 0..200 {
        let r = random();
        assert!(0 <= r && r < S);
        let b = random_between(-5 * S, 5 * S);
        assert!(-5 * S <= b && b <= 5 * S);
    }
    assert_eq!(random_between(7, 7), 7);
}

#[test]
fn random_vectors_stay_in_range() {
    for _ in 0..50 {
        let v = Vec3::random();
        assert!(0 <= v.x && v.x < S && 0 <= v.y && v.y < S && 0 <= v.z && v.z < S);
        let w = Vec3::random_between(-S, S);
        assert!(-S <= w.x && w.x <= S && -S <= w.y && w.y <= S && -S <= w.z && w.z <= S);
    }
}

#[test]
fn random_unit_vector_has_unit_scale_components() {
    for _ in 0..50 {
        let v = random_unit_vector();
        assert!(-S <= v.x && v.x <= S && -S <= v.y && v.y <= S && -S <= v.z && v.z <= S);
        // Close to unit length: within two percent.
        let ls = (v.x * v.x + v.y * v.y + v.z * v.z) / S;
        assert!(ls > S - S / 50 && ls < S + S / 50);
    }
}

#[test]
fn hemisphere_sample_never_opposes_normal() {
    let n = Vec3::new(0, S, 0);
    for _ in 0..50 {
        let v = random_on_hemisphere(n);
        assert!(v.x * n.x + v.y * n.y + v.z * n.z >= 0);
    }
}
