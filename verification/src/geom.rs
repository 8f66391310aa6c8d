//! Fixed-point plane geometry: vectors and axis-aligned rectangles.
//!
//! Rectangles follow the convention of the rendering layer: `x`/`y` is the
//! top-left corner and `w`/`h` extend rightward and downward. Two rectangles
//! overlap when their closed extents intersect, so rectangles that merely
//! touch along an edge count as overlapping.

use vstd::prelude::*;
use crate::fixed::{
    fx_in_range, fx_wide, fx_clamp, fx_mul_div, fx_scale, fx_sat_add, clamp_i64, sqrt_floor,
    isqrt_u128, FX_WIDE,
};

verus! {

/// A point or displacement in the world plane.
#[derive(Clone, Copy, Debug, PartialEq, Eq, Structural)]
pub struct FxVec {
    pub x: i64,
    pub y: i64,
}

/// An axis-aligned rectangle, top-left anchored.
#[derive(Clone, Copy, Debug, PartialEq, Eq, Structural)]
pub struct FxRect {
    pub x: i64,
    pub y: i64,
    pub w: i64,
    pub h: i64,
}

/// A stored vector: both components inside the saturation range.
pub open spec fn vec_in_range(v: FxVec) -> bool {
    fx_in_range(v.x as int) && fx_in_range(v.y as int)
}

/// A derived vector: both components inside the wide range.
pub open spec fn vec_wide(v: FxVec) -> bool {
    fx_wide(v.x as int) && fx_wide(v.y as int)
}

/// A stored rectangle: in-range fields and non-negative extent.
pub open spec fn rect_in_range(r: FxRect) -> bool {
    fx_in_range(r.x as int) && fx_in_range(r.y as int) && 0 <= r.w <= crate::fixed::FX_LIMIT && 0
        <= r.h <= crate::fixed::FX_LIMIT
}

/// A derived rectangle (such as a hitbox placed in the world): wide fields
/// and non-negative extent.
pub open spec fn rect_wide(r: FxRect) -> bool {
    fx_wide(r.x as int) && fx_wide(r.y as int) && 0 <= r.w <= FX_WIDE && 0 <= r.h <= FX_WIDE
}

/// Whether the closed extents of `a` and `b` intersect on both axes.
pub open spec fn rects_overlap(a: FxRect, b: FxRect) -> bool {
    a.x <= b.x + b.w && a.x + a.w >= b.x && a.y <= b.y + b.h && a.y + a.h >= b.y
}

/// Squared Euclidean distance between two points.
pub open spec fn dist_sq(a: FxVec, b: FxVec) -> int {
    (a.x - b.x) * (a.x - b.x) + (a.y - b.y) * (a.y - b.y)
}

/// Squared length of a vector.
pub open spec fn len_sq(v: FxVec) -> int {
    v.x * v.x + v.y * v.y
}

impl FxVec {
    /// The origin / null displacement.
    pub fn zero() -> (r: FxVec)
        ensures
            r == (FxVec { x: 0, y: 0 }),
    {
        FxVec { x: 0, y: 0 }
    }
}

impl FxRect {
    /// True iff the closed extents of `self` and `other` intersect.
    pub fn overlaps(&self, other: &FxRect) -> (r: bool)
        requires
            rect_wide(*self),
            rect_wide(*other),
        ensures
            r == rects_overlap(*self, *other),
    {
        self.x <= other.x + other.w && self.x + self.w >= other.x && self.y <= other.y + other.h
            && self.y + self.h >= other.y
    }
}

/// An actor-local hitbox placed at a world position.
pub open spec fn world_rect(hitbox: FxRect, pos: FxVec) -> FxRect {
    FxRect {
        x: (pos.x + hitbox.x) as i64,
        y: (pos.y + hitbox.y) as i64,
        w: hitbox.w,
        h: hitbox.h,
    }
}

/// Place an actor-local hitbox at a world position.
pub fn world_hitbox(hitbox: FxRect, pos: FxVec) -> (r: FxRect)
    requires
        rect_in_range(hitbox),
        vec_in_range(pos),
    ensures
        r == world_rect(hitbox, pos),
        rect_wide(r),
{
    FxRect { x: pos.x + hitbox.x, y: pos.y + hitbox.y, w: hitbox.w, h: hitbox.h }
}

/// Center of an actor's hitbox once placed at a world position; the probe
/// point for terrain queries.
pub fn hitbox_center_world(pos: FxVec, hitbox: FxRect) -> (r: FxVec)
    requires
        vec_in_range(pos),
        rect_in_range(hitbox),
    ensures
        r.x == pos.x + hitbox.x + hitbox.w / 2,
        r.y == pos.y + hitbox.y + hitbox.h / 2,
        vec_wide(r),
{
    FxVec { x: pos.x + hitbox.x + hitbox.w / 2, y: pos.y + hitbox.y + hitbox.h / 2 }
}

/// Where `pos` must move so that the placed hitbox lies inside `bounds`,
/// per axis: the nearest position inside `[lo, hi]`.
pub open spec fn clamped_axis(p: int, lo: int, hi: int) -> int {
    if p < lo {
        lo
    } else if p > hi {
        hi
    } else {
        p
    }
}

/// Clamp a position so that `hitbox` placed there lies inside `bounds`.
pub fn clamp_hitbox_to_rect(hitbox: FxRect, pos: FxVec, bounds: FxRect) -> (r: FxVec)
    requires
        rect_in_range(hitbox),
        vec_wide(pos),
        rect_wide(bounds),
        hitbox.w <= bounds.w,
        hitbox.h <= bounds.h,
    ensures
        r.x == clamped_axis(pos.x as int, bounds.x - hitbox.x, bounds.x + bounds.w - hitbox.w
            - hitbox.x),
        r.y == clamped_axis(pos.y as int, bounds.y - hitbox.y, bounds.y + bounds.h - hitbox.h
            - hitbox.y),
{
    let min_x = bounds.x - hitbox.x;
    let max_x = bounds.x + bounds.w - hitbox.w - hitbox.x;
    let min_y = bounds.y - hitbox.y;
    let max_y = bounds.y + bounds.h - hitbox.h - hitbox.y;
    FxVec { x: clamp_i64(pos.x, min_x, max_x), y: clamp_i64(pos.y, min_y, max_y) }
}

/// Squared distance between two wide points, computed without overflow.
pub fn dist_sq_u128(a: FxVec, b: FxVec) -> (r: u128)
    requires
        vec_wide(a),
        vec_wide(b),
    ensures
        r == dist_sq(a, b),
        r <= (FX_WIDE as int) * (FX_WIDE as int) * 8,
{
    let dx = (a.x - b.x) as i128;
    let dy = (a.y - b.y) as i128;
    proof {
        assert(dx * dx + dy * dy <= (FX_WIDE as int) * (FX_WIDE as int) * 8 && dx * dx + dy * dy
            >= 0 && dx * dx >= 0 && dy * dy >= 0) by (nonlinear_arith)
            requires
                -2 * FX_WIDE <= dx <= 2 * FX_WIDE,
                -2 * FX_WIDE <= dy <= 2 * FX_WIDE,
        ;
    }
    (dx * dx + dy * dy) as u128
}

/// Squared length of a wide vector, computed without overflow.
pub fn len_sq_u128(v: FxVec) -> (r: u128)
    requires
        vec_wide(v),
    ensures
        r == len_sq(v),
        r <= (FX_WIDE as int) * (FX_WIDE as int) * 8,
{
    let z = FxVec { x: 0, y: 0 };
    dist_sq_u128(v, z)
}

/// Rescale `v` to have (approximately) length `target`, leaving the null
/// vector unchanged: each component becomes `c * target / |v|`, truncated.
pub fn scale_to_length(v: FxVec, target: i64) -> (r: FxVec)
    requires
        vec_wide(v),
        fx_wide(target as int),
    ensures
        len_sq(v) == 0 ==> r == v,
        len_sq(v) != 0 ==> {
            let n = sqrt_floor(len_sq(v) as nat);
            r == (FxVec {
                x: fx_mul_div(v.x as int, target as int, n as int) as i64,
                y: fx_mul_div(v.y as int, target as int, n as int) as i64,
            })
        },
        vec_in_range(r) || len_sq(v) == 0,
{
    let sq = len_sq_u128(v);
    if sq == 0 {
        v
    } else {
        let n = isqrt_u128(sq);
        proof {
            crate::fixed::lemma_sqrt_floor(sq as nat);
            let s = sqrt_floor(sq as nat);
            assert((s + 1) * (s + 1) >= 1 && (s == 0 ==> (s + 1) * (s + 1) == 1))
                by (nonlinear_arith);
            assert(s > 0);
        }
        FxVec { x: fx_scale(v.x, target, n as i64), y: fx_scale(v.y, target, n as i64) }
    }
}

/// Linear interpolation from `a` toward `b` by `t` thousandths, truncated
/// per component.
pub fn lerp_vec(a: FxVec, b: FxVec, t: i64) -> (r: FxVec)
    requires
        vec_in_range(a),
        vec_in_range(b),
        0 <= t <= 1000,
    ensures
        r.x == a.x + fx_mul_div(b.x - a.x, t as int, 1000),
        r.y == a.y + fx_mul_div(b.y - a.y, t as int, 1000),
        vec_wide(r),
{
    let dx = fx_scale(b.x - a.x, t, 1000);
    let dy = fx_scale(b.y - a.y, t, 1000);
    FxVec { x: a.x + dx, y: a.y + dy }
}

/// Saturating vector addition, used when integrating velocity into position.
pub fn vec_sat_add(a: FxVec, b: FxVec) -> (r: FxVec)
    requires
        vec_in_range(a),
        vec_in_range(b),
    ensures
        r.x == fx_clamp(a.x + b.x),
        r.y == fx_clamp(a.y + b.y),
        vec_in_range(r),
{
    FxVec { x: fx_sat_add(a.x, b.x), y: fx_sat_add(a.y, b.y) }
}

} // verus!
