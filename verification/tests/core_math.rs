//! Fixed-point scalars and plane geometry.

use cropbots_core::fixed::{fx_sat_add, fx_sat_sub, fx_scale, floor_div, isqrt_u128, clamp_i64,
    FX_LIMIT, FX_ONE};
use cropbots_core::geom::{FxVec, FxRect, world_hitbox, hitbox_center_world, clamp_hitbox_to_rect,
    dist_sq_u128, len_sq_u128, scale_to_length, lerp_vec, vec_sat_add};

#[test]
fn saturating_addition_clamps_at_the_limit() {
    assert_eq!(fx_sat_add(1, 2), 3);
    assert_eq!(fx_sat_add(FX_LIMIT, 1), FX_LIMIT);
    assert_eq!(fx_sat_add(-FX_LIMIT, -1), -FX_LIMIT);
    assert_eq!(fx_sat_sub(-FX_LIMIT, FX_LIMIT), -FX_LIMIT);
    assert_eq!(fx_sat_sub(5, 2), 3);
}

#[test]
fn scaling_truncates_toward_zero() {
    assert_eq!(fx_scale(7, 3, 2), 10); // 21 / 2 -> 10
    assert_eq!(fx_scale(-7, 3, 2), -10); // -21 / 2 -> -10
    assert_eq!(fx_scale(1000, 1000, 1000), 1000);
    assert_eq!(fx_scale(0, 123, 7), 0);
    assert_eq!(fx_scale(FX_LIMIT, 2, 1), FX_LIMIT); // saturates
}

#[test]
fn floor_division_rounds_down() {
    assert_eq!(floor_div(7, 2), 3);
    assert_eq!(floor_div(-7, 2), -4);
    assert_eq!(floor_div(-8, 2), -4);
    assert_eq!(floor_div(0, 5), 0);
}

#[test]
fn integer_square_root_is_the_floor() {
    assert_eq!(isqrt_u128(0), 0);
    assert_eq!(isqrt_u128(1), 1);
    assert_eq!(isqrt_u128(3), 1);
    assert_eq!(isqrt_u128(4), 2);
    assert_eq!(isqrt_u128(1_000_000), 1000);
    assert_eq!(isqrt_u128(999_999), 999);
}

#[test]
fn clamping_scalars() {
    assert_eq!(clamp_i64(5, 0, 10), 5);
    assert_eq!(clamp_i64(-5, 0, 10), 0);
    assert_eq!(clamp_i64(15, 0, 10), 10);
}

#[test]
fn rectangles_touching_at_an_edge_count_as_overlapping() {
    let a = FxRect { x: 0, y: 0, w: 1000, h: 1000 };
    let b = FxRect { x: 1000, y: 0, w: 1000, h: 1000 };
    let c = FxRect { x: 1001, y: 0, w: 1000, h: 1000 };
    assert!(a.overlaps(&b));
    assert!(!a.overlaps(&c));
    assert!(a.overlaps(&a));
}

#[test]
fn world_placement_offsets_the_hitbox() {
    let hb = FxRect { x: -500, y: -1000, w: 1000, h: 1000 };
    let pos = FxVec { x: 2000, y: 3000 };
    let w = world_hitbox(hb, pos);
    assert_eq!(w, FxRect { x: 1500, y: 2000, w: 1000, h: 1000 });
    let c = hitbox_center_world(pos, hb);
    assert_eq!(c, FxVec { x: 2000, y: 2500 });
}

#[test]
fn clamping_a_hitbox_into_bounds() {
    let hb = FxRect { x: 0, y: 0, w: 1000, h: 1000 };
    let bounds = FxRect { x: 0, y: 0, w: 10_000, h: 10_000 };
    let inside = clamp_hitbox_to_rect(hb, FxVec { x: 500, y: 500 }, bounds);
    assert_eq!(inside, FxVec { x: 500, y: 500 });
    let low = clamp_hitbox_to_rect(hb, FxVec { x: -100, y: -2 }, bounds);
    assert_eq!(low, FxVec { x: 0, y: 0 });
    let high = clamp_hitbox_to_rect(hb, FxVec { x: 99_999, y: 9500 }, bounds);
    assert_eq!(high, FxVec { x: 9000, y: 9000 });
}

#[test]
fn distances_are_squared_sums() {
    let a = FxVec { x: 0, y: 0 };
    let b = FxVec { x: 3, y: 4 };
    assert_eq!(dist_sq_u128(a, b), 25);
    assert_eq!(len_sq_u128(b), 25);
}

#[test]
fn rescaling_a_vector_to_a_target_length() {
    let v = FxVec { x: 3000, y: 4000 }; // length 5000
    let r = scale_to_length(v, 1000);
    assert_eq!(r, FxVec { x: 600, y: 800 });
    let z = FxVec { x: 0, y: 0 };
    assert_eq!(scale_to_length(z, 1000), z);
}

#[test]
fn interpolation_moves_partway() {
    let a = FxVec { x: 0, y: 0 };
    let b = FxVec { x: 1000, y: 2000 };
    assert_eq!(lerp_vec(a, b, 0), a);
    assert_eq!(lerp_vec(a, b, 1000), b);
    assert_eq!(lerp_vec(a, b, 500), FxVec { x: 500, y: 1000 });
    assert_eq!(FX_ONE, 1000);
}

#[test]
fn vector_addition_saturates() {
    let a = FxVec { x: FX_LIMIT, y: 0 };
    let b = FxVec { x: 1, y: -2 };
    assert_eq!(vec_sat_add(a, b), FxVec { x: FX_LIMIT, y: -2 });
}
