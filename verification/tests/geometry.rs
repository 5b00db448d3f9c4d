use snake_core::constants::DIR_ONE;
use snake_core::geometry::Vec2;
use snake_core::geometry::dist_sq;
use snake_core::geometry::isqrt;
use snake_core::geometry::normalize_dir;
use snake_core::geometry::scale_mag;
use snake_core::geometry::wrap_coord;
use snake_core::geometry::wrap_delta;

#[test]
fn wrap_at_boundary_is_identity() {
    // Exactly on a boundary is inside the world: no wrap.
    assert_eq!(wrap_coord(800_000, 800_000), 800_000);
    assert_eq!(wrap_coord(0, 800_000), 0);
    assert_eq!(wrap_coord(123_456, 800_000), 123_456);
}

#[test]
fn wrap_past_boundary_lands_on_opposite_edge() {
    assert_eq!(wrap_coord(800_001, 800_000), 0);
    assert_eq!(wrap_coord(-1, 800_000), 800_000);
    assert_eq!(wrap_coord(5_000_000, 800_000), 0);
    assert_eq!(wrap_coord(-5_000_000, 800_000), 800_000);
}

#[test]
fn wrap_delta_corrects_seam_crossings() {
    // A delta spanning nearly the whole world is a seam crossing.
    assert_eq!(wrap_delta(770_000, 800_000), -30_000);
    assert_eq!(wrap_delta(-770_000, 800_000), 30_000);
    // The margin boundary itself triggers the correction.
    assert_eq!(wrap_delta(750_000, 800_000), -50_000);
    // A short delta is true distance.
    assert_eq!(wrap_delta(749_999, 800_000), 749_999);
    assert_eq!(wrap_delta(-10, 800_000), -10);
}

#[test]
fn isqrt_exact_values() {
    assert_eq!(isqrt(0), 0);
    assert_eq!(isqrt(1), 1);
    assert_eq!(isqrt(2), 1);
    assert_eq!(isqrt(3), 1);
    assert_eq!(isqrt(4), 2);
    assert_eq!(isqrt(24), 4);
    assert_eq!(isqrt(25), 5);
    assert_eq!(isqrt(1_000_000_000_000), 1_000_000);
    assert_eq!(isqrt(999_999_999_999), 999_999);
}

#[test]
fn dist_sq_exact() {
    let p = Vec2 { x: 0, y: 0 };
    let q = Vec2 { x: 3, y: 4 };
    assert_eq!(dist_sq(p, q), 25);
    assert_eq!(dist_sq(q, p), 25);
    let a = Vec2 { x: 100_000, y: 200_000 };
    let b = Vec2 { x: 120_000, y: 200_000 };
    assert_eq!(dist_sq(a, b), 400_000_000);
}

#[test]
fn normalize_three_four_five() {
    let d = normalize_dir(3_000, 4_000);
    assert_eq!(d, Vec2 { x: 600_000, y: 800_000 });
    let d2 = normalize_dir(-3_000, 4_000);
    assert_eq!(d2, Vec2 { x: -600_000, y: 800_000 });
    let d3 = normalize_dir(0, 7);
    assert_eq!(d3, Vec2 { x: 0, y: DIR_ONE });
    let d4 = normalize_dir(-5, 0);
    assert_eq!(d4, Vec2 { x: -DIR_ONE, y: 0 });
}

#[test]
fn scale_mag_rounds_magnitude_toward_zero() {
    assert_eq!(scale_mag(7, 1, 2), 3);
    assert_eq!(scale_mag(-7, 1, 2), -3);
    assert_eq!(scale_mag(0, 123, 7), 0);
    // delta * speed / gap: the body-follow displacement formula.
    assert_eq!(scale_mag(67_000, 2_000, 32_500), 4_123);
}
