//! Axis-separated collision resolution against gathered obstacle
//! rectangles, and the gathering of dynamic (other-actor) obstacles.

use vstd::prelude::*;
use crate::geom::{FxVec, FxRect, world_rect, rects_overlap, rect_in_range, rect_wide,
    vec_in_range, len_sq, len_sq_u128};
use crate::fixed::{fx_in_range, fx_clamp, sqrt_floor, isqrt_u128, FX_LIMIT};
use crate::flags::{EntityKind, flag_set, has_flag, DEF_FLAG_NO_ENTITY_COLLISION,
    DEF_FLAG_NO_ENEMY_COLLISION, DEF_FLAG_NO_FRIEND_COLLISION, DEF_FLAG_NO_MISC_COLLISION,
    DEF_FLAG_NO_PLAYER_COLLISION};
use crate::target::{Target, EntityTarget, EntityContext, entity_target_wf};

verus! {

/// The margin kept between a pushed-back hitbox and the obstacle it hit,
/// to avoid immediate re-penetration: one thousandth of a world unit.
pub const COLLISION_EPSILON: i64 = 1;

/// The axis being resolved.
#[derive(Clone, Copy, Debug, PartialEq, Eq, Structural)]
pub enum Axis {
    X,
    Y,
}

/// Whether the placed hitbox overlaps any gathered obstacle.
pub open spec fn any_overlap(rect: FxRect, cs: Seq<FxRect>) -> bool {
    exists|i: int| 0 <= i < cs.len() && rects_overlap(rect, #[trigger] cs[i])
}

/// The X position an actor is pushed back to, scanning obstacles from `i`
/// on: the nearest non-overlapping position along the movement direction,
/// with the epsilon margin.
pub open spec fn push_out_x(
    hitbox: FxRect,
    pos: FxVec,
    vel: int,
    cs: Seq<FxRect>,
    i: int,
    cand: int,
) -> int
    decreases cs.len() - i,
{
    if i < 0 || i >= cs.len() {
        cand
    } else {
        let rect = world_rect(hitbox, pos);
        let next = if !rects_overlap(rect, cs[i]) {
            cand
        } else if vel > 0 {
            let tgt = cs[i].x - hitbox.w - hitbox.x - COLLISION_EPSILON;
            if tgt < cand {
                tgt
            } else {
                cand
            }
        } else {
            let tgt = cs[i].x + cs[i].w - hitbox.x + COLLISION_EPSILON;
            if tgt > cand {
                tgt
            } else {
                cand
            }
        };
        push_out_x(hitbox, pos, vel, cs, i + 1, next)
    }
}

/// The Y position an actor is pushed back to (see [`push_out_x`]).
pub open spec fn push_out_y(
    hitbox: FxRect,
    pos: FxVec,
    vel: int,
    cs: Seq<FxRect>,
    i: int,
    cand: int,
) -> int
    decreases cs.len() - i,
{
    if i < 0 || i >= cs.len() {
        cand
    } else {
        let rect = world_rect(hitbox, pos);
        let next = if !rects_overlap(rect, cs[i]) {
            cand
        } else if vel > 0 {
            let tgt = cs[i].y - hitbox.h - hitbox.y - COLLISION_EPSILON;
            if tgt < cand {
                tgt
            } else {
                cand
            }
        } else {
            let tgt = cs[i].y + cs[i].h - hitbox.y + COLLISION_EPSILON;
            if tgt > cand {
                tgt
            } else {
                cand
            }
        };
        push_out_y(hitbox, pos, vel, cs, i + 1, next)
    }
}

/// All obstacle rectangles are well-formed derived rectangles.
pub open spec fn colliders_wf(cs: Seq<FxRect>) -> bool {
    forall|i: int| 0 <= i < cs.len() ==> rect_wide(#[trigger] cs[i])
}

/// One X-axis resolution step as a function: unchanged without axis
/// velocity or without an overlapping obstacle, else pushed out (saturated)
/// with the axis velocity zeroed.
pub open spec fn spec_resolve_axis_x(
    hitbox: FxRect,
    pos: FxVec,
    vel_axis: i64,
    cs: Seq<FxRect>,
) -> (FxVec, i64) {
    if vel_axis == 0 {
        (pos, vel_axis)
    } else if !any_overlap(world_rect(hitbox, pos), cs) {
        (pos, vel_axis)
    } else {
        (
            FxVec {
                x: fx_clamp(push_out_x(hitbox, pos, vel_axis as int, cs, 0, pos.x as int)) as i64,
                y: pos.y,
            },
            0,
        )
    }
}

/// One Y-axis resolution step as a function (see [`spec_resolve_axis_x`]).
pub open spec fn spec_resolve_axis_y(
    hitbox: FxRect,
    pos: FxVec,
    vel_axis: i64,
    cs: Seq<FxRect>,
) -> (FxVec, i64) {
    if vel_axis == 0 {
        (pos, vel_axis)
    } else if !any_overlap(world_rect(hitbox, pos), cs) {
        (pos, vel_axis)
    } else {
        (
            FxVec {
                x: pos.x,
                y: fx_clamp(push_out_y(hitbox, pos, vel_axis as int, cs, 0, pos.y as int)) as i64,
            },
            0,
        )
    }
}

/// Resolve one axis of movement: when the actor's placed hitbox overlaps an
/// obstacle and it is moving along the axis, push it back to the nearest
/// non-overlapping position along that axis (saturated into the scalar
/// range) and zero the axis velocity. With zero axis velocity, or when no
/// obstacle overlaps, position and velocity come back unchanged.
pub fn resolve_collisions_axis(
    hitbox: FxRect,
    pos: FxVec,
    vel_axis: i64,
    colliders: &Vec<FxRect>,
    axis: Axis,
) -> (r: (FxVec, i64))
    requires
        rect_in_range(hitbox),
        vec_in_range(pos),
        fx_in_range(vel_axis as int),
        colliders_wf(colliders@),
    ensures
        vec_in_range(r.0),
        vel_axis == 0 ==> r == (pos, vel_axis),
        !any_overlap(world_rect(hitbox, pos), colliders@) ==> r == (pos, vel_axis),
        vel_axis != 0 && any_overlap(world_rect(hitbox, pos), colliders@) ==> r.1 == 0 && (
        match axis {
            Axis::X => r.0.y == pos.y && r.0.x == fx_clamp(
                push_out_x(hitbox, pos, vel_axis as int, colliders@, 0, pos.x as int),
            ),
            Axis::Y => r.0.x == pos.x && r.0.y == fx_clamp(
                push_out_y(hitbox, pos, vel_axis as int, colliders@, 0, pos.y as int),
            ),
        }),
        axis == Axis::X ==> r == spec_resolve_axis_x(hitbox, pos, vel_axis, colliders@),
        axis == Axis::Y ==> r == spec_resolve_axis_y(hitbox, pos, vel_axis, colliders@),
{
    if vel_axis == 0 {
        return (pos, vel_axis);
    }
    let rect = crate::geom::world_hitbox(hitbox, pos);
    let ghost cs = colliders@;
    let mut hit = false;
    match axis {
        Axis::X => {
            let mut candidate = pos.x;
            let mut i: usize = 0;
            while i < colliders.len()
                invariant
                    cs == colliders@,
                    colliders_wf(cs),
                    rect == world_rect(hitbox, pos),
                    rect_in_range(hitbox),
                    vec_in_range(pos),
                    i <= cs.len(),
                    -18_000_000_000_000 <= candidate <= 18_000_000_000_000,
                    push_out_x(hitbox, pos, vel_axis as int, cs, i as int, candidate as int)
                        == push_out_x(hitbox, pos, vel_axis as int, cs, 0, pos.x as int),
                    hit == any_overlap(rect, cs.subrange(0, i as int)),
                    !hit ==> candidate == pos.x,
                decreases cs.len() - i,
            {
                let c = colliders[i];
                if rect.overlaps(&c) {
                    hit = true;
                    if vel_axis > 0 {
                        let tgt = c.x - hitbox.w - hitbox.x - COLLISION_EPSILON;
                        if tgt < candidate {
                            candidate = tgt;
                        }
                    } else {
                        let tgt = c.x + c.w - hitbox.x + COLLISION_EPSILON;
                        if tgt > candidate {
                            candidate = tgt;
                        }
                    }
                }
                proof {
                    assert(cs.subrange(0, i + 1).drop_last() =~= cs.subrange(0, i as int));
                    if hit && !any_overlap(rect, cs.subrange(0, i as int)) {
                        assert(rects_overlap(rect, cs.subrange(0, i + 1)[i as int]));
                    }
                    if any_overlap(rect, cs.subrange(0, i as int)) {
                        let w = choose|w: int|
                            0 <= w < i && rects_overlap(rect, cs.subrange(0, i as int)[w]);
                        assert(rects_overlap(rect, cs.subrange(0, i + 1)[w]));
                    }
                }
                i = i + 1;
            }
            proof {
                assert(cs.subrange(0, cs.len() as int) =~= cs);
            }
            if hit {
                let x = crate::fixed::clamp_i64(candidate, -FX_LIMIT, FX_LIMIT);
                return (FxVec { x, y: pos.y }, 0);
            }
            (pos, vel_axis)
        },
        Axis::Y => {
            let mut candidate = pos.y;
            let mut i: usize = 0;
            while i < colliders.len()
                invariant
                    cs == colliders@,
                    colliders_wf(cs),
                    rect == world_rect(hitbox, pos),
                    rect_in_range(hitbox),
                    vec_in_range(pos),
                    i <= cs.len(),
                    -18_000_000_000_000 <= candidate <= 18_000_000_000_000,
                    push_out_y(hitbox, pos, vel_axis as int, cs, i as int, candidate as int)
                        == push_out_y(hitbox, pos, vel_axis as int, cs, 0, pos.y as int),
                    hit == any_overlap(rect, cs.subrange(0, i as int)),
                    !hit ==> candidate == pos.y,
                decreases cs.len() - i,
            {
                let c = colliders[i];
                if rect.overlaps(&c) {
                    hit = true;
                    if vel_axis > 0 {
                        let tgt = c.y - hitbox.h - hitbox.y - COLLISION_EPSILON;
                        if tgt < candidate {
                            candidate = tgt;
                        }
                    } else {
                        let tgt = c.y + c.h - hitbox.y + COLLISION_EPSILON;
                        if tgt > candidate {
                            candidate = tgt;
                        }
                    }
                }
                proof {
                    assert(cs.subrange(0, i + 1).drop_last() =~= cs.subrange(0, i as int));
                    if hit && !any_overlap(rect, cs.subrange(0, i as int)) {
                        assert(rects_overlap(rect, cs.subrange(0, i + 1)[i as int]));
                    }
                    if any_overlap(rect, cs.subrange(0, i as int)) {
                        let w = choose|w: int|
                            0 <= w < i && rects_overlap(rect, cs.subrange(0, i as int)[w]);
                        assert(rects_overlap(rect, cs.subrange(0, i + 1)[w]));
                    }
                }
                i = i + 1;
            }
            proof {
                assert(cs.subrange(0, cs.len() as int) =~= cs);
            }
            if hit {
                let y = crate::fixed::clamp_i64(candidate, -FX_LIMIT, FX_LIMIT);
                return (FxVec { x: pos.x, y }, 0);
            }
            (pos, vel_axis)
        },
    }
}

/// Ceiling division of non-negative integers by a positive divisor.
pub open spec fn ceil_div(a: int, d: int) -> int {
    (a + d - 1) / d
}

/// How many grid cells outward terrain probing must reach: one, plus one
/// cell per tile the actor sweeps this frame, capped at four so fast movers
/// probe farther without scanning the world.
pub open spec fn spec_collision_radius(tile_size: int, vel: FxVec, dt: int) -> int {
    let speed = sqrt_floor(len_sq(vel) as nat);
    let ts = if tile_size >= 1000 {
        tile_size
    } else {
        1000int
    };
    let tiles = ceil_div(speed * dt / 1000, ts);
    if 1 + tiles < 1 {
        1int
    } else if 1 + tiles > 4 {
        4int
    } else {
        1 + tiles
    }
}

/// Compute the terrain probe radius (see [`spec_collision_radius`]).
pub fn collision_radius(tile_size: i64, vel: FxVec, dt: i64) -> (r: i64)
    requires
        vec_in_range(vel),
        0 <= dt <= FX_LIMIT,
        0 <= tile_size <= FX_LIMIT,
    ensures
        r == spec_collision_radius(tile_size as int, vel, dt as int),
        1 <= r <= 4,
{
    let sq = len_sq_u128(vel);
    let speed = isqrt_u128(sq) as u128;
    let ts: u128 = if tile_size >= 1000 {
        tile_size as u128
    } else {
        1000
    };
    proof {
        assert(speed * (dt as int) <= 30_000_000_000_000 * (FX_LIMIT as int)) by (nonlinear_arith)
            requires
                0 <= speed <= 30_000_000_000_000,
                0 <= dt <= FX_LIMIT,
        ;
    }
    let swept = speed * (dt as u128) / 1000;
    let tiles = (swept + ts - 1) / ts;
    if tiles >= 3 {
        4
    } else {
        proof {
            assert(1 + tiles <= 4);
        }
        1 + (tiles as i64)
    }
}

/// The dynamic obstacle rectangles contributed by the actor snapshots from
/// position `i` on: every other live actor's hitbox, except the actor's
/// current target and kinds its flags exempt.
pub open spec fn spec_dyn_from(
    s: Seq<EntityTarget>,
    i: int,
    uid: u64,
    target_id: Option<u64>,
    flags: u16,
) -> Seq<FxRect>
    decreases s.len() - i,
{
    if i < 0 || i >= s.len() {
        Seq::empty()
    } else {
        let rest = spec_dyn_from(s, i + 1, uid, target_id, flags);
        let skip = s[i].id == uid || !s[i].alive || target_id == Some(s[i].id) || (match s[i].kind {
            EntityKind::Enemy => flag_set(flags, DEF_FLAG_NO_ENEMY_COLLISION),
            EntityKind::Friend => flag_set(flags, DEF_FLAG_NO_FRIEND_COLLISION),
            EntityKind::Misc => flag_set(flags, DEF_FLAG_NO_MISC_COLLISION),
        });
        if skip {
            rest
        } else {
            seq![s[i].hitbox] + rest
        }
    }
}

/// The full dynamic obstacle list for an actor: nothing under the
/// no-entity-collision flag; otherwise the player's hitbox (unless exempt,
/// or the player is the current target) followed by the other actors'
/// hitboxes (see [`spec_dyn_from`]).
pub open spec fn spec_dynamic_obstacles(
    flags: u16,
    uid: u64,
    current_target: Option<Target>,
    ctx: EntityContext,
) -> Seq<FxRect> {
    if flag_set(flags, DEF_FLAG_NO_ENTITY_COLLISION) {
        Seq::empty()
    } else {
        let target_id = match current_target {
            Some(Target::Entity(t)) => Some(t.id),
            _ => None,
        };
        let target_is_player = current_target matches Some(Target::Player(_));
        let player_part: Seq<FxRect> = if !flag_set(flags, DEF_FLAG_NO_PLAYER_COLLISION)
            && !target_is_player && ctx.player is Some {
            seq![ctx.player->0.hitbox]
        } else {
            Seq::empty()
        };
        player_part + spec_dyn_from(ctx.entities@, 0, uid, target_id, flags)
    }
}

/// Gather the dynamic obstacle hitboxes for an actor into `out` (cleared
/// first); see [`spec_dynamic_obstacles`].
pub fn collect_dynamic_collision_hitboxes(
    entity_flags: u16,
    entity_uid: u64,
    current_target: Option<Target>,
    ctx: &EntityContext,
    out: &mut Vec<FxRect>,
)
    requires
        ctx.wf(),
    ensures
        final(out)@ == spec_dynamic_obstacles(entity_flags, entity_uid, current_target, *ctx),
        colliders_wf(final(out)@),
{
    out.clear();
    if has_flag(entity_flags, DEF_FLAG_NO_ENTITY_COLLISION) {
        proof {
            assert(out@ =~= spec_dynamic_obstacles(entity_flags, entity_uid, current_target, *ctx));
        }
        return;
    }
    let no_enemy = has_flag(entity_flags, DEF_FLAG_NO_ENEMY_COLLISION);
    let no_friend = has_flag(entity_flags, DEF_FLAG_NO_FRIEND_COLLISION);
    let no_misc = has_flag(entity_flags, DEF_FLAG_NO_MISC_COLLISION);
    let no_player = has_flag(entity_flags, DEF_FLAG_NO_PLAYER_COLLISION);
    let target_entity_id: Option<u64> = match current_target {
        Some(Target::Entity(t)) => Some(t.id),
        _ => None,
    };
    let target_is_player = match current_target {
        Some(Target::Player(_)) => true,
        _ => false,
    };
    if !no_player && !target_is_player {
        match ctx.player {
            Some(p) => {
                out.push(p.hitbox);
            },
            None => (),
        }
    }
    let ghost s = ctx.entities@;
    let ghost expected = spec_dynamic_obstacles(entity_flags, entity_uid, current_target, *ctx);
    proof {
        assert(expected =~= out@ + spec_dyn_from(s, 0, entity_uid, target_entity_id, entity_flags));
    }
    let mut i: usize = 0;
    while i < ctx.entities.len()
        invariant
            s == ctx.entities@,
            ctx.wf(),
            i <= s.len(),
            expected =~= out@ + spec_dyn_from(
                s,
                i as int,
                entity_uid,
                target_entity_id,
                entity_flags,
            ),
            no_enemy == flag_set(entity_flags, DEF_FLAG_NO_ENEMY_COLLISION),
            no_friend == flag_set(entity_flags, DEF_FLAG_NO_FRIEND_COLLISION),
            no_misc == flag_set(entity_flags, DEF_FLAG_NO_MISC_COLLISION),
            colliders_wf(out@),
        decreases s.len() - i,
    {
        let other = ctx.entities[i];
        let mut skip = other.id == entity_uid || !other.alive;
        match target_entity_id {
            Some(tid) => {
                if tid == other.id {
                    skip = true;
                }
            },
            None => (),
        }
        match other.kind {
            EntityKind::Enemy => if no_enemy {
                skip = true;
            },
            EntityKind::Friend => if no_friend {
                skip = true;
            },
            EntityKind::Misc => if no_misc {
                skip = true;
            },
        }
        if !skip {
            out.push(other.hitbox);
            proof {
                assert(entity_target_wf(s[i as int]));
                assert(crate::geom::rect_wide(other.hitbox));
            }
        }
        i = i + 1;
    }
    proof {
        assert(expected =~= out@);
    }
}

} // verus!
