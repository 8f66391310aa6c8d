//! The overlap separator: after every actor has individually updated, up
//! to three correction passes push overlapping, mutually-collidable actor
//! pairs apart, splitting each correction equally between the two actors.

use vstd::prelude::*;
use crate::geom::{FxVec, FxRect, world_rect, rect_wide, vec_in_range};
use crate::fixed::{fx_clamp, fx_sat_add_wide};
use crate::flags::{EntityKind, flag_set, has_flag, DEF_FLAG_NO_ENTITY_COLLISION,
    DEF_FLAG_NO_ENEMY_COLLISION, DEF_FLAG_NO_FRIEND_COLLISION, DEF_FLAG_NO_MISC_COLLISION};
use crate::actor::{Entity, EntityDatabase};
use crate::terrain::TerrainGrid;

verus! {

/// The margin added to each separation so the pair ends clearly apart.
pub const SEPARATION_EPSILON: i64 = 1;

/// Whether a definition's flags exclude collisions with actors of `kind`.
pub open spec fn spec_blocks_kind(flags: u16, kind: EntityKind) -> bool {
    match kind {
        EntityKind::Enemy => flag_set(flags, DEF_FLAG_NO_ENEMY_COLLISION),
        EntityKind::Friend => flag_set(flags, DEF_FLAG_NO_FRIEND_COLLISION),
        EntityKind::Misc => flag_set(flags, DEF_FLAG_NO_MISC_COLLISION),
    }
}

/// Whether actors of two definitions push each other apart: neither may
/// carry the global no-entity-collision flag, and neither may specifically
/// exclude the other's kind. A property of the definitions alone.
pub open spec fn spec_should_collide(db: EntityDatabase, a_def: int, b_def: int) -> bool {
    let a = db.entities@[a_def];
    let b = db.entities@[b_def];
    &&& !flag_set(a.flags, DEF_FLAG_NO_ENTITY_COLLISION)
    &&& !flag_set(b.flags, DEF_FLAG_NO_ENTITY_COLLISION)
    &&& !spec_blocks_kind(a.flags, b.kind)
    &&& !spec_blocks_kind(b.flags, a.kind)
}

/// Whether a definition's flags exclude collisions with `kind` (see
/// [`spec_blocks_kind`]).
pub fn blocks_kind(db: &EntityDatabase, def_idx: usize, kind: EntityKind) -> (r: bool)
    requires
        def_idx < db.entities@.len(),
    ensures
        r == spec_blocks_kind(db.entities@[def_idx as int].flags, kind),
{
    let flags = db.entities[def_idx].flags;
    match kind {
        EntityKind::Enemy => has_flag(flags, DEF_FLAG_NO_ENEMY_COLLISION),
        EntityKind::Friend => has_flag(flags, DEF_FLAG_NO_FRIEND_COLLISION),
        EntityKind::Misc => has_flag(flags, DEF_FLAG_NO_MISC_COLLISION),
    }
}

/// Whether actors of two definitions push each other apart (see
/// [`spec_should_collide`]).
pub fn entities_should_collide(db: &EntityDatabase, a_def_idx: usize, b_def_idx: usize) -> (r:
    bool)
    requires
        a_def_idx < db.entities@.len(),
        b_def_idx < db.entities@.len(),
    ensures
        r == spec_should_collide(*db, a_def_idx as int, b_def_idx as int),
{
    let a_flags = db.entities[a_def_idx].flags;
    let b_flags = db.entities[b_def_idx].flags;
    if has_flag(a_flags, DEF_FLAG_NO_ENTITY_COLLISION) || has_flag(
        b_flags,
        DEF_FLAG_NO_ENTITY_COLLISION,
    ) {
        return false;
    }
    let a_kind = db.entities[a_def_idx].kind;
    let b_kind = db.entities[b_def_idx].kind;
    !blocks_kind(db, a_def_idx, b_kind) && !blocks_kind(db, b_def_idx, a_kind)
}

/// The penetration depth of two placed hitboxes along X (positive only when
/// their open extents intersect).
pub open spec fn overlap_x(a: FxRect, b: FxRect) -> int {
    (if a.x + a.w <= b.x + b.w {
        a.x + a.w
    } else {
        b.x + b.w
    }) - (if a.x >= b.x {
        a.x as int
    } else {
        b.x as int
    })
}

/// The penetration depth of two placed hitboxes along Y.
pub open spec fn overlap_y(a: FxRect, b: FxRect) -> int {
    (if a.y + a.h <= b.y + b.h {
        a.y + a.h
    } else {
        b.y + b.h
    }) - (if a.y >= b.y {
        a.y as int
    } else {
        b.y as int
    })
}

/// Whether two placed hitboxes strictly penetrate each other (touching
/// edges do not count).
pub open spec fn strictly_overlap(a: FxRect, b: FxRect) -> bool {
    overlap_x(a, b) > 0 && overlap_y(a, b) > 0
}

/// The sign of the first actor's correction along the separation axis:
/// the actor whose center is not past the other's backs away, with a
/// stable rule on ties.
pub open spec fn spec_push_sign_x(a: FxRect, b: FxRect) -> int {
    if 2 * a.x + a.w <= 2 * b.x + b.w {
        -1int
    } else {
        1int
    }
}

/// The sign of the first actor's correction along Y (see
/// [`spec_push_sign_x`]).
pub open spec fn spec_push_sign_y(a: FxRect, b: FxRect) -> int {
    if 2 * a.y + a.h <= 2 * b.y + b.h {
        -1int
    } else {
        1int
    }
}

/// Separate one strictly-overlapping pair: push along whichever axis has
/// the smaller penetration, splitting the correction equally between the
/// two positions (half the overlap plus the epsilon each, with opposite
/// signs); a pair that does not strictly overlap moves nothing.
#[verifier::rlimit(60)]
pub fn separate_pair(pa: &mut FxVec, pb: &mut FxVec, a_hb: FxRect, b_hb: FxRect)
    requires
        vec_in_range(*old(pa)),
        vec_in_range(*old(pb)),
        rect_wide(a_hb),
        rect_wide(b_hb),
    ensures
        vec_in_range(*final(pa)),
        vec_in_range(*final(pb)),
        !strictly_overlap(a_hb, b_hb) ==> *final(pa) == *old(pa) && *final(pb) == *old(pb),
        strictly_overlap(a_hb, b_hb) && overlap_x(a_hb, b_hb) <= overlap_y(a_hb, b_hb) ==> ({
            let sign = spec_push_sign_x(a_hb, b_hb);
            let push = overlap_x(a_hb, b_hb) / 2 + SEPARATION_EPSILON;
            &&& final(pa).x == fx_clamp(old(pa).x + sign * push)
            &&& final(pb).x == fx_clamp(old(pb).x - sign * push)
            &&& final(pa).y == old(pa).y
            &&& final(pb).y == old(pb).y
        }),
        strictly_overlap(a_hb, b_hb) && overlap_x(a_hb, b_hb) > overlap_y(a_hb, b_hb) ==> ({
            let sign = spec_push_sign_y(a_hb, b_hb);
            let push = overlap_y(a_hb, b_hb) / 2 + SEPARATION_EPSILON;
            &&& final(pa).y == fx_clamp(old(pa).y + sign * push)
            &&& final(pb).y == fx_clamp(old(pb).y - sign * push)
            &&& final(pa).x == old(pa).x
            &&& final(pb).x == old(pb).x
        }),
{
    let right_a = a_hb.x + a_hb.w;
    let right_b = b_hb.x + b_hb.w;
    let ox = (if right_a <= right_b {
        right_a
    } else {
        right_b
    }) - (if a_hb.x >= b_hb.x {
        a_hb.x
    } else {
        b_hb.x
    });
    let bottom_a = a_hb.y + a_hb.h;
    let bottom_b = b_hb.y + b_hb.h;
    let oy = (if bottom_a <= bottom_b {
        bottom_a
    } else {
        bottom_b
    }) - (if a_hb.y >= b_hb.y {
        a_hb.y
    } else {
        b_hb.y
    });
    if ox <= 0 || oy <= 0 {
        return ;
    }
    proof {
        assert(ox == overlap_x(a_hb, b_hb));
        assert(oy == overlap_y(a_hb, b_hb));
    }
    if ox <= oy {
        let push = ox / 2 + SEPARATION_EPSILON;
        if 2 * a_hb.x + a_hb.w <= 2 * b_hb.x + b_hb.w {
            proof {
                assert(spec_push_sign_x(a_hb, b_hb) == -1);
                assert((-1int) * (push as int) == -(push as int));
            }
            pa.x = fx_sat_add_wide(pa.x, -push);
            pb.x = fx_sat_add_wide(pb.x, push);
        } else {
            proof {
                assert(spec_push_sign_x(a_hb, b_hb) == 1);
                assert((1int) * (push as int) == push as int);
            }
            pa.x = fx_sat_add_wide(pa.x, push);
            pb.x = fx_sat_add_wide(pb.x, -push);
        }
    } else {
        let push = oy / 2 + SEPARATION_EPSILON;
        if 2 * a_hb.y + a_hb.h <= 2 * b_hb.y + b_hb.h {
            proof {
                assert(spec_push_sign_y(a_hb, b_hb) == -1);
                assert((-1int) * (push as int) == -(push as int));
            }
            pa.y = fx_sat_add_wide(pa.y, -push);
            pb.y = fx_sat_add_wide(pb.y, push);
        } else {
            proof {
                assert(spec_push_sign_y(a_hb, b_hb) == 1);
                assert((1int) * (push as int) == push as int);
            }
            pa.y = fx_sat_add_wide(pa.y, push);
            pb.y = fx_sat_add_wide(pb.y, -push);
        }
    }
}

/// No two distinct live-set actors form a collidable, strictly-overlapping
/// pair (judged on the actors' placed hitboxes).
pub open spec fn no_overlapping_pair(s: Seq<Entity>, db: EntityDatabase) -> bool {
    forall|i: int, j: int|
        0 <= i < j < s.len() ==> !(spec_should_collide(
            db,
            (#[trigger] s[i]).instance.def as int,
            (#[trigger] s[j]).instance.def as int,
        ) && strictly_overlap(
            world_rect(db.entities@[s[i].instance.def as int].hitbox, s[i].instance.pos),
            world_rect(db.entities@[s[j].instance.def as int].hitbox, s[j].instance.pos),
        ))
}

/// Cell size of the separation grid: thirty-two world units, tuned for
/// typical actor density and independent of the terrain's tile size.
pub const SEPARATION_CELL: i64 = 32_000;

/// The key of an unordered definition pair in the collidability cache.
pub open spec fn pair_key(a: int, b: int) -> int {
    a * 0x1_0000_0000_0000_0000 + b
}

/// Distinct ordered pairs of definition indices get distinct cache keys.
proof fn lemma_pair_key_injective(a: int, b: int, c: int, d: int)
    requires
        0 <= a,
        0 <= b < 0x1_0000_0000_0000_0000,
        0 <= c,
        0 <= d < 0x1_0000_0000_0000_0000,
        pair_key(a, b) == pair_key(c, d),
    ensures
        a == c,
        b == d,
{
    assert(a == c && b == d) by (nonlinear_arith)
        requires
            0 <= a,
            0 <= b < 0x1_0000_0000_0000_0000,
            0 <= c,
            0 <= d < 0x1_0000_0000_0000_0000,
            a * 0x1_0000_0000_0000_0000 + b == c * 0x1_0000_0000_0000_0000 + d,
    ;
}

/// Every cached answer agrees with the collidability rule.
pub open spec fn collide_cache_wf(m: Map<u128, bool>, db: EntityDatabase) -> bool {
    forall|a: int, b: int|
        0 <= a < 0x1_0000_0000_0000_0000 && 0 <= b < 0x1_0000_0000_0000_0000
            && a < db.entities@.len() && b < db.entities@.len() && #[trigger] m.contains_key(
            pair_key(a, b) as u128,
        ) ==> m[pair_key(a, b) as u128] == spec_should_collide(db, a, b)
}

/// Look up (or compute and cache) whether two definitions collide.
fn cached_should_collide(
    cache: &mut std::collections::HashMap<u128, bool>,
    db: &EntityDatabase,
    a_def_idx: usize,
    b_def_idx: usize,
) -> (r: bool)
    requires
        a_def_idx < db.entities@.len(),
        b_def_idx < db.entities@.len(),
        collide_cache_wf(old(cache)@, *db),
    ensures
        r == spec_should_collide(*db, a_def_idx as int, b_def_idx as int),
        collide_cache_wf(final(cache)@, *db),
{
    broadcast use vstd::std_specs::hash::group_hash_axioms;

    let (lo, hi) = if a_def_idx <= b_def_idx {
        (a_def_idx, b_def_idx)
    } else {
        (b_def_idx, a_def_idx)
    };
    proof {
        assert((lo as int) * 0x1_0000_0000_0000_0000 + hi < 0x1_0000_0000_0000_0000_0000_0000_0000_0000
            && (lo as int) * 0x1_0000_0000_0000_0000 >= 0) by (nonlinear_arith)
            requires
                0 <= lo < 0x1_0000_0000_0000_0000,
                0 <= hi < 0x1_0000_0000_0000_0000,
        ;
    }
    let key: u128 = (lo as u128) * 0x1_0000_0000_0000_0000u128 + (hi as u128);
    proof {
        assert(key == pair_key(lo as int, hi as int) as u128);
        assert(0 <= pair_key(lo as int, hi as int)
            < 0x1_0000_0000_0000_0000_0000_0000_0000_0000) by (nonlinear_arith)
            requires
                0 <= lo < 0x1_0000_0000_0000_0000,
                0 <= hi < 0x1_0000_0000_0000_0000,
                pair_key(lo as int, hi as int) == (lo as int) * 0x1_0000_0000_0000_0000 + hi,
        ;
    }
    match cache.get(&key) {
        Some(v) => {
            let r = *v;
            proof {
                assert(cache@.contains_key(pair_key(lo as int, hi as int) as u128));
                assert(0 <= lo < 0x1_0000_0000_0000_0000 && 0 <= hi < 0x1_0000_0000_0000_0000);
                assert(r == spec_should_collide(*db, lo as int, hi as int));
                lemma_collide_symmetric(*db, a_def_idx as int, b_def_idx as int);
            }
            r
        },
        None => {
            let r = entities_should_collide(db, lo, hi);
            cache.insert(key, r);
            proof {
                lemma_collide_symmetric(*db, a_def_idx as int, b_def_idx as int);
                assert forall|a: int, b: int|
                    0 <= a < 0x1_0000_0000_0000_0000 && 0 <= b < 0x1_0000_0000_0000_0000 && a
                        < db.entities@.len() && b < db.entities@.len()
                        && #[trigger] cache@.contains_key(pair_key(a, b) as u128) implies cache@[
                    pair_key(a, b) as u128] == spec_should_collide(*db, a, b) by {
                    assert(0 <= pair_key(a, b) < 0x1_0000_0000_0000_0000_0000_0000_0000_0000)
                        by (nonlinear_arith)
                        requires
                            0 <= a < 0x1_0000_0000_0000_0000,
                            0 <= b < 0x1_0000_0000_0000_0000,
                            pair_key(a, b) == a * 0x1_0000_0000_0000_0000 + b,
                    ;
                    if pair_key(a, b) == pair_key(lo as int, hi as int) {
                        lemma_pair_key_injective(a, b, lo as int, hi as int);
                    } else {
                        assert(pair_key(a, b) as u128 != pair_key(lo as int, hi as int) as u128);
                        assert(old(cache)@.contains_key(pair_key(a, b) as u128));
                    }
                }
            }
            r
        },
    }
}

/// Collidability does not depend on the order of the pair.
proof fn lemma_collide_symmetric(db: EntityDatabase, a: int, b: int)
    ensures
        spec_should_collide(db, a, b) == spec_should_collide(db, b, a),
{
}

/// The separation-grid cell a coordinate falls in.
pub open spec fn spec_cell_of(v: int) -> int {
    v / (SEPARATION_CELL as int)
}

/// The packed separation-grid key of a cell.
pub open spec fn cell_key(cx: int, cy: int) -> int {
    (cx + 0x8000_0000) * 0x1_0000_0000 + (cy + 0x8000_0000)
}

/// The grid cell of a coordinate (admitting edge coordinates of placed
/// hitboxes, which may reach twice the derived-scalar bound).
fn cell_of(v: i64) -> (r: i64)
    requires
        -16_000_000_000_000 <= v <= 16_000_000_000_000,
    ensures
        r == spec_cell_of(v as int),
        -0x4000_0000 <= r <= 0x4000_0000,
{
    proof {
        vstd::arithmetic::div_mod::lemma_div_is_ordered(
            -16_000_000_000_000,
            v as int,
            SEPARATION_CELL as int,
        );
        vstd::arithmetic::div_mod::lemma_div_is_ordered(
            v as int,
            16_000_000_000_000,
            SEPARATION_CELL as int,
        );
    }
    crate::fixed::floor_div(v, SEPARATION_CELL)
}

/// Pack a cell coordinate pair into a grid key.
fn pack_cell(cx: i64, cy: i64) -> (r: u64)
    requires
        -0x4000_0000 <= cx <= 0x4000_0001,
        -0x4000_0000 <= cy <= 0x4000_0001,
    ensures
        r == cell_key(cx as int, cy as int),
{
    proof {
        assert(((cx as int) + 0x8000_0000) * 0x1_0000_0000 + ((cy as int) + 0x8000_0000)
            < 0x1_0000_0000_0000_0000 && ((cx as int) + 0x8000_0000) * 0x1_0000_0000 >= 0)
            by (nonlinear_arith)
            requires
                0 < (cx as int) + 0x8000_0000 < 0x1_0000_0000,
                0 < (cy as int) + 0x8000_0000 < 0x1_0000_0000,
        ;
    }
    ((cx + 0x8000_0000) as u64) * 0x1_0000_0000u64 + ((cy + 0x8000_0000) as u64)
}

/// Every index a grid bucket holds is a valid actor index.
pub open spec fn grid_wf(m: Map<u64, Vec<usize>>, n: int) -> bool {
    forall|k: u64|
        #[trigger] m.contains_key(k) ==> forall|t: int| 0 <= t < m[k]@.len() ==> m[k]@[t] < n
}

/// Whether the bucket of `key` holds actor index `idx`.
pub open spec fn grid_member(m: Map<u64, Vec<usize>>, key: u64, idx: int) -> bool {
    m.contains_key(key) && exists|t: int| 0 <= t < m[key]@.len() && m[key]@[t] == idx
}

/// The packed grid key of a cell, as stored.
pub open spec fn cell_key_u64(cx: int, cy: int) -> u64 {
    cell_key(cx, cy) as u64
}

/// Whether cell `(cx, cy)` lies in the cell range a placed hitbox spans.
pub open spec fn cell_in_box_range(r: FxRect, cx: int, cy: int) -> bool {
    &&& spec_cell_of(r.x as int) <= cx <= spec_cell_of(r.x + r.w)
    &&& spec_cell_of(r.y as int) <= cy <= spec_cell_of(r.y + r.h)
}

/// Every actor index below `upto` is registered in every cell its hitbox
/// spans: the completeness of the spatial grid.
pub open spec fn grid_covers(m: Map<u64, Vec<usize>>, boxes: Seq<FxRect>, upto: int) -> bool {
    forall|k: int, cx: int, cy: int|
        0 <= k < upto && #[trigger] cell_in_box_range(boxes[k], cx, cy) ==> grid_member(
            m,
            cell_key_u64(cx, cy),
            k,
        )
}

/// Insert an actor index into the bucket of one grid cell, keeping every
/// earlier registration.
fn grid_insert(
    grid: &mut std::collections::HashMap<u64, Vec<usize>>,
    key: u64,
    idx: usize,
    Ghost(n): Ghost<int>,
)
    requires
        grid_wf(old(grid)@, n),
        idx < n,
    ensures
        grid_wf(final(grid)@, n),
        grid_member(final(grid)@, key, idx as int),
        forall|k2: u64, t: int|
            #[trigger] grid_member(old(grid)@, k2, t) ==> grid_member(final(grid)@, k2, t),
{
    broadcast use vstd::std_specs::hash::group_hash_axioms;

    let ghost pre_map = grid@;
    let mut bucket: Vec<usize> = match grid.remove(&key) {
        Some(v) => v,
        None => Vec::new(),
    };
    let ghost pre = bucket@;
    proof {
        assert(forall|t: int| 0 <= t < pre.len() ==> pre[t] < n);
        assert(pre_map.contains_key(key) ==> pre =~= pre_map[key]@);
    }
    bucket.push(idx);
    grid.insert(key, bucket);
    proof {
        assert forall|k2: u64| #[trigger] grid@.contains_key(k2) implies forall|t: int|
            0 <= t < grid@[k2]@.len() ==> grid@[k2]@[t] < n by {
            if k2 == key {
                assert(grid@[k2]@ =~= pre.push(idx));
            }
        }
        assert(grid@[key]@ =~= pre.push(idx));
        assert(grid@[key]@[pre.len() as int] == idx);
        assert forall|k2: u64, t: int| #[trigger] grid_member(pre_map, k2, t) implies grid_member(
            grid@,
            k2,
            t,
        ) by {
            if k2 == key {
                let w = choose|w: int| 0 <= w < pre_map[key]@.len() && pre_map[key]@[w] == t;
                assert(grid@[key]@[w] == t);
            } else {
                assert(grid@[k2]@ == pre_map[k2]@);
            }
        }
    }
}

/// The placed hitbox of actor `k` in state `s`.
pub open spec fn actor_box(s: Seq<Entity>, db: EntityDatabase, k: int) -> FxRect {
    world_rect(db.entities@[s[k].instance.def as int].hitbox, s[k].instance.pos)
}

/// Pair `(i, j)` is mutually collidable and strictly overlapping in `s`.
pub open spec fn colliding_pair(s: Seq<Entity>, db: EntityDatabase, i: int, j: int) -> bool {
    spec_should_collide(db, s[i].instance.def as int, s[j].instance.def as int)
        && strictly_overlap(actor_box(s, db, i), actor_box(s, db, j))
}

/// The separated positions of a strictly overlapping pair: one correction
/// of [`separate_pair`], as values.
pub open spec fn spec_separated(a_hb: FxRect, b_hb: FxRect, pa: FxVec, pb: FxVec) -> (
    FxVec,
    FxVec,
) {
    if overlap_x(a_hb, b_hb) <= overlap_y(a_hb, b_hb) {
        let sign = spec_push_sign_x(a_hb, b_hb);
        let push = overlap_x(a_hb, b_hb) / 2 + SEPARATION_EPSILON;
        (
            FxVec { x: fx_clamp(pa.x + sign * push) as i64, y: pa.y },
            FxVec { x: fx_clamp(pb.x - sign * push) as i64, y: pb.y },
        )
    } else {
        let sign = spec_push_sign_y(a_hb, b_hb);
        let push = overlap_y(a_hb, b_hb) / 2 + SEPARATION_EPSILON;
        (
            FxVec { x: pa.x, y: fx_clamp(pa.y + sign * push) as i64 },
            FxVec { x: pb.x, y: fx_clamp(pb.y - sign * push) as i64 },
        )
    }
}

/// The separation of the pair stays inside the scalar saturation range.
pub open spec fn spec_sep_in_range(a_hb: FxRect, b_hb: FxRect, pa: FxVec, pb: FxVec) -> bool {
    if overlap_x(a_hb, b_hb) <= overlap_y(a_hb, b_hb) {
        let sign = spec_push_sign_x(a_hb, b_hb);
        let push = overlap_x(a_hb, b_hb) / 2 + SEPARATION_EPSILON;
        crate::fixed::fx_in_range(pa.x + sign * push) && crate::fixed::fx_in_range(
            pb.x - sign * push,
        )
    } else {
        let sign = spec_push_sign_y(a_hb, b_hb);
        let push = overlap_y(a_hb, b_hb) / 2 + SEPARATION_EPSILON;
        crate::fixed::fx_in_range(pa.y + sign * push) && crate::fixed::fx_in_range(
            pb.y - sign * push,
        )
    }
}

/// A position clamped so `hitbox` placed there lies inside the world's
/// bounding rectangle: the effect of the post-pass re-clamp.
pub open spec fn spec_clamp_to_border(map: TerrainGrid, hitbox: FxRect, p: FxVec) -> FxVec {
    let bounds = map.spec_border_hitbox();
    FxVec {
        x: fx_clamp(
            crate::geom::clamped_axis(
                p.x as int,
                bounds.x - hitbox.x,
                bounds.x + bounds.w - hitbox.w - hitbox.x,
            ),
        ) as i64,
        y: fx_clamp(
            crate::geom::clamped_axis(
                p.y as int,
                bounds.y - hitbox.y,
                bounds.y + bounds.h - hitbox.h - hitbox.y,
            ),
        ) as i64,
    }
}

/// The position actor `k` ends at when `(i, j)` is the lone colliding pair:
/// the pair separated, everyone re-clamped to the world rectangle.
pub open spec fn lone_pair_pos(
    s0: Seq<Entity>,
    db: EntityDatabase,
    map: TerrainGrid,
    i: int,
    j: int,
    k: int,
) -> FxVec {
    let sep = spec_separated(
        actor_box(s0, db, i),
        actor_box(s0, db, j),
        s0[i].instance.pos,
        s0[j].instance.pos,
    );
    let raw = if k == i {
        sep.0
    } else if k == j {
        sep.1
    } else {
        s0[k].instance.pos
    };
    spec_clamp_to_border(map, db.entities@[s0[k].instance.def as int].hitbox, raw)
}

/// The placed hitbox of actor `k` after the lone pair's correcting pass.
pub open spec fn lone_pair_box(
    s0: Seq<Entity>,
    db: EntityDatabase,
    map: TerrainGrid,
    i: int,
    j: int,
    k: int,
) -> FxRect {
    world_rect(
        db.entities@[s0[k].instance.def as int].hitbox,
        lone_pair_pos(s0, db, map, i, j, k),
    )
}

/// The single-overlapping-pair scenario: `(i, j)` is the one collidable,
/// strictly overlapping pair; its separation stays inside the scalar
/// range; and in the corrected, re-clamped state no collidable pair
/// overlaps any more, so the following pass finds nothing to do.
pub open spec fn lone_pair_scenario(
    s0: Seq<Entity>,
    db: EntityDatabase,
    map: TerrainGrid,
    i: int,
    j: int,
) -> bool {
    &&& 0 <= i < j < s0.len()
    &&& colliding_pair(s0, db, i, j)
    &&& forall|a: int, b: int|
        0 <= a < b < s0.len() && !(a == i && b == j) ==> !colliding_pair(s0, db, a, b)
    &&& spec_sep_in_range(
        actor_box(s0, db, i),
        actor_box(s0, db, j),
        s0[i].instance.pos,
        s0[j].instance.pos,
    )
    &&& forall|a: int, b: int|
        #![trigger lone_pair_box(s0, db, map, i, j, a), lone_pair_box(s0, db, map, i, j, b)]
        0 <= a < b < s0.len() ==> !(spec_should_collide(
            db,
            s0[a].instance.def as int,
            s0[b].instance.def as int,
        ) && strictly_overlap(
            lone_pair_box(s0, db, map, i, j, a),
            lone_pair_box(s0, db, map, i, j, b),
        ))
}

/// Two strictly overlapping placed hitboxes share a grid cell: the cell of
/// the hindmost top-left corner lies in both cell ranges.
proof fn lemma_overlap_shared_cell(a: FxRect, b: FxRect)
    requires
        strictly_overlap(a, b),
        a.w >= 0,
        b.w >= 0,
        a.h >= 0,
        b.h >= 0,
    ensures
        ({
            let cx = spec_cell_of(if a.x >= b.x { a.x as int } else { b.x as int });
            let cy = spec_cell_of(if a.y >= b.y { a.y as int } else { b.y as int });
            cell_in_box_range(a, cx, cy) && cell_in_box_range(b, cx, cy)
        }),
{
    let px: int = if a.x >= b.x { a.x as int } else { b.x as int };
    let py: int = if a.y >= b.y { a.y as int } else { b.y as int };
    assert(a.x <= px <= a.x + a.w && b.x <= px <= b.x + b.w);
    assert(a.y <= py <= a.y + a.h && b.y <= py <= b.y + b.h);
    vstd::arithmetic::div_mod::lemma_div_is_ordered(a.x as int, px, SEPARATION_CELL as int);
    vstd::arithmetic::div_mod::lemma_div_is_ordered(px, a.x + a.w, SEPARATION_CELL as int);
    vstd::arithmetic::div_mod::lemma_div_is_ordered(b.x as int, px, SEPARATION_CELL as int);
    vstd::arithmetic::div_mod::lemma_div_is_ordered(px, b.x + b.w, SEPARATION_CELL as int);
    vstd::arithmetic::div_mod::lemma_div_is_ordered(a.y as int, py, SEPARATION_CELL as int);
    vstd::arithmetic::div_mod::lemma_div_is_ordered(py, a.y + a.h, SEPARATION_CELL as int);
    vstd::arithmetic::div_mod::lemma_div_is_ordered(b.y as int, py, SEPARATION_CELL as int);
    vstd::arithmetic::div_mod::lemma_div_is_ordered(py, b.y + b.h, SEPARATION_CELL as int);
}

/// Every actor of `s` stands at its position in `t`.
pub open spec fn positions_match(s: Seq<Entity>, t: Seq<Entity>) -> bool {
    s.len() == t.len() && forall|k: int|
        0 <= k < s.len() ==> (#[trigger] s[k]).instance.pos == t[k].instance.pos
}

/// The mid-pass state of the lone pair's correcting pass: the pair stands
/// at its separated (not yet re-clamped) positions, everyone else at the
/// entry position.
pub open spec fn lone_mid(
    s: Seq<Entity>,
    s0: Seq<Entity>,
    db: EntityDatabase,
    i: int,
    j: int,
) -> bool {
    let sep = spec_separated(
        actor_box(s0, db, i),
        actor_box(s0, db, j),
        s0[i].instance.pos,
        s0[j].instance.pos,
    );
    &&& s.len() == s0.len()
    &&& s[i].instance.pos == sep.0
    &&& s[j].instance.pos == sep.1
    &&& forall|k: int|
        0 <= k < s.len() && k != i && k != j ==> (#[trigger] s[k]).instance.pos
            == s0[k].instance.pos
}

/// The settled state after the lone pair's pass: every actor stands at its
/// predicted, re-clamped position.
pub open spec fn lone_fin(
    s: Seq<Entity>,
    s0: Seq<Entity>,
    db: EntityDatabase,
    map: TerrainGrid,
    i: int,
    j: int,
) -> bool {
    s.len() == s0.len() && forall|k: int|
        0 <= k < s.len() ==> (#[trigger] s[k]).instance.pos == lone_pair_pos(s0, db, map, i, j, k)
}

/// Fill every visitation stamp with zero after the stamp counter wraps.
fn reset_marks(marks: &mut Vec<u64>)
    ensures
        final(marks)@.len() == old(marks)@.len(),
        forall|t: int| 0 <= t < final(marks)@.len() ==> final(marks)@[t] == 0,
{
    let n = marks.len();
    let mut z: usize = 0;
    while z < n
        invariant
            n == marks@.len(),
            z <= n,
            forall|t: int| 0 <= t < z ==> marks@[t] == 0,
        decreases n - z,
    {
        marks[z] = 0;
        z = z + 1;
    }
}

/// Run up to three correction passes over all actors. Each pass snapshots
/// every placed hitbox and buckets it into a uniform spatial grid; for every
/// actor, only candidates sharing a grid cell are examined, deduplicated
/// with a per-actor visitation stamp so no pair is looked at twice.
/// Collidability between two definitions is cached per unordered pair.
/// Every collidable, strictly-overlapping pair is pushed apart (decisions
/// taken against the snapshot), moved actors are re-clamped to the world
/// rectangle, and passes stop early once one produces no correction. Only
/// positions change. With no overlapping collidable pair to begin with,
/// nothing changes at all; and when exactly one collidable pair overlaps
/// (and its separation settles things), each of the two ends displaced by
/// half the overlap plus the margin, in opposite directions along the
/// smaller-penetration axis, everyone re-clamped to the world rectangle.
pub fn resolve_entity_overlaps(actors: &mut Vec<Entity>, db: &EntityDatabase, map: &TerrainGrid)
    requires
        db.wf(),
        map.wf(),
        forall|k: int| 0 <= k < old(actors)@.len() ==> (#[trigger] old(actors)@[k]).instance.wf(),
        forall|k: int|
            0 <= k < old(actors)@.len() ==> (#[trigger] old(actors)@[k]).instance.def
                < db.entities@.len(),
        forall|k: int|
            0 <= k < old(actors)@.len() ==> db.entities@[(#[trigger] old(
                actors,
            )@[k]).instance.def as int].hitbox.w <= map.spec_border_hitbox().w && db.entities@[old(
                actors,
            )@[k].instance.def as int].hitbox.h <= map.spec_border_hitbox().h,
    ensures
        final(actors)@.len() == old(actors)@.len(),
        forall|k: int|
            0 <= k < final(actors)@.len() ==> (#[trigger] final(actors)@[k]).instance.same_except_pos(
                old(actors)@[k].instance,
            ),
        forall|k: int| 0 <= k < final(actors)@.len() ==> (#[trigger] final(actors)@[k]).instance.wf(),
        no_overlapping_pair(old(actors)@, *db) ==> forall|k: int|
            0 <= k < final(actors)@.len() ==> (#[trigger] final(actors)@[k]).instance.pos == old(
                actors,
            )@[k].instance.pos,
        forall|i: int, j: int|
            #[trigger] lone_pair_scenario(old(actors)@, *db, *map, i, j) ==> lone_fin(
                final(actors)@,
                old(actors)@,
                *db,
                *map,
                i,
                j,
            ),
{
    broadcast use vstd::std_specs::hash::group_hash_axioms;

    if actors.len() < 2 {
        proof {
            assert forall|i: int, j: int|
                #[trigger] lone_pair_scenario(actors@, *db, *map, i, j) implies lone_fin(
                actors@,
                actors@,
                *db,
                *map,
                i,
                j,
            ) by {
                assert(0 <= i < j < actors@.len());
                assert(false);
            }
        }
        return ;
    }
    let ghost s0 = actors@;
    let ghost calm = no_overlapping_pair(s0, *db);
    let ghost lone = exists|i: int, j: int| lone_pair_scenario(s0, *db, *map, i, j);
    let ghost (si, sj): (int, int) = if lone {
        choose|i: int, j: int| lone_pair_scenario(s0, *db, *map, i, j)
    } else {
        (0int, 0int)
    };
    let n = actors.len();
    let mut collide_cache: std::collections::HashMap<u128, bool> =
        std::collections::HashMap::new();
    let mut marks: Vec<u64> = Vec::new();
    let mut f: usize = 0;
    while f < n
        invariant
            f <= n,
            marks@.len() == f,
            forall|t: int| 0 <= t < f ==> marks@[t] == 0,
        decreases n - f,
    {
        marks.push(0);
        f = f + 1;
    }
    let mut stamp: u64 = 1;
    let mut pass: usize = 0;
    let mut done = false;
    while pass < 3 && !done
        invariant
            db.wf(),
            map.wf(),
            s0 == old(actors)@,
            n == s0.len(),
            n >= 2,
            calm == no_overlapping_pair(s0, *db),
            lone == exists|i: int, j: int| lone_pair_scenario(s0, *db, *map, i, j),
            lone ==> lone_pair_scenario(s0, *db, *map, si, sj),
            actors@.len() == n,
            marks@.len() == n,
            forall|t: int| 0 <= t < n ==> marks@[t] <= stamp,
            collide_cache_wf(collide_cache@, *db),
            forall|k: int|
                0 <= k < n ==> (#[trigger] actors@[k]).instance.same_except_pos(
                    s0[k].instance,
                ),
            forall|k: int| 0 <= k < n ==> (#[trigger] actors@[k]).instance.wf(),
            forall|k: int|
                0 <= k < n ==> (#[trigger] actors@[k]).instance.def < db.entities@.len(),
            forall|k: int|
                0 <= k < n ==> db.entities@[(#[trigger] actors@[k]).instance.def as int].hitbox.w
                    <= map.spec_border_hitbox().w && db.entities@[actors@[k].instance.def as int].hitbox.h
                    <= map.spec_border_hitbox().h,
            calm ==> forall|k: int|
                0 <= k < n ==> (#[trigger] actors@[k]).instance.pos == s0[k].instance.pos,
            lone ==> pass <= 2,
            lone && pass == 0 ==> !done && positions_match(actors@, s0),
            lone && pass == 1 ==> !done && lone_fin(actors@, s0, *db, *map, si, sj),
            lone && pass == 2 ==> done && lone_fin(actors@, s0, *db, *map, si, sj),
        decreases 3 - pass,
    {
        let ghost pass_start = actors@;
        let mut hitboxes: Vec<FxRect> = Vec::new();
        let mut grid: std::collections::HashMap<u64, Vec<usize>> =
            std::collections::HashMap::new();
        let mut b: usize = 0;
        while b < n
            invariant
                db.wf(),
                actors@.len() == n,
                pass_start == actors@,
                b <= n,
                forall|k: int| 0 <= k < n ==> (#[trigger] actors@[k]).instance.wf(),
                forall|k: int|
                    0 <= k < n ==> (#[trigger] actors@[k]).instance.def < db.entities@.len(),
                hitboxes@.len() == b,
                grid_wf(grid@, n as int),
                grid_covers(grid@, hitboxes@, b as int),
                forall|k: int|
                    0 <= k < b ==> (#[trigger] hitboxes@[k]) == world_rect(
                        db.entities@[actors@[k].instance.def as int].hitbox,
                        actors@[k].instance.pos,
                    ) && rect_wide(hitboxes@[k]),
            decreases n - b,
        {
            let e = &actors[b];
            let hb = db.entities[e.instance.def].world_hitbox(e.instance.pos);
            let ghost boxes_pre = hitboxes@;
            hitboxes.push(hb);
            let min_cx = cell_of(hb.x);
            let max_cx = cell_of(hb.x + hb.w);
            let min_cy = cell_of(hb.y);
            let max_cy = cell_of(hb.y + hb.h);
            proof {
                vstd::arithmetic::div_mod::lemma_div_is_ordered(
                    hb.x as int,
                    hb.x + hb.w,
                    SEPARATION_CELL as int,
                );
                vstd::arithmetic::div_mod::lemma_div_is_ordered(
                    hb.y as int,
                    hb.y + hb.h,
                    SEPARATION_CELL as int,
                );
            }
            let mut cy = min_cy;
            while cy <= max_cy
                invariant
                    grid_wf(grid@, n as int),
                    b < n,
                    hitboxes@.len() == b + 1,
                    hb == hitboxes@[b as int],
                    grid_covers(grid@, hitboxes@, b as int),
                    min_cy <= cy,
                    min_cx <= max_cx + 1,
                    min_cx == spec_cell_of(hb.x as int),
                    max_cx == spec_cell_of(hb.x + hb.w),
                    min_cy == spec_cell_of(hb.y as int),
                    max_cy == spec_cell_of(hb.y + hb.h),
                    -0x4000_0000 <= min_cx <= 0x4000_0000,
                    -0x4000_0000 <= max_cx <= 0x4000_0000,
                    -0x4000_0000 <= min_cy <= 0x4000_0000,
                    -0x4000_0000 <= max_cy <= 0x4000_0000,
                    cy <= max_cy + 1,
                    forall|cx2: int, cy2: int|
                        #![trigger cell_key_u64(cx2, cy2)]
                        min_cx <= cx2 <= max_cx && min_cy <= cy2 < cy ==> grid_member(
                            grid@,
                            cell_key_u64(cx2, cy2),
                            b as int,
                        ),
                decreases max_cy + 1 - cy,
            {
                let mut cx = min_cx;
                while cx <= max_cx
                    invariant
                        grid_wf(grid@, n as int),
                        b < n,
                        hitboxes@.len() == b + 1,
                        grid_covers(grid@, hitboxes@, b as int),
                        min_cx <= cx,
                        cx <= max_cx + 1,
                        -0x4000_0000 <= min_cx,
                        -0x4000_0000 <= max_cx <= 0x4000_0000,
                        -0x4000_0000 <= cy <= 0x4000_0001,
                        min_cy <= cy,
                        forall|cx2: int, cy2: int|
                            #![trigger cell_key_u64(cx2, cy2)]
                            min_cx <= cx2 <= max_cx && min_cy <= cy2 < cy ==> grid_member(
                                grid@,
                                cell_key_u64(cx2, cy2),
                                b as int,
                            ),
                        forall|cx2: int|
                            #![trigger cell_key_u64(cx2, cy as int)]
                            min_cx <= cx2 < cx ==> grid_member(
                                grid@,
                                cell_key_u64(cx2, cy as int),
                                b as int,
                            ),
                    decreases max_cx + 1 - cx,
                {
                    let key = pack_cell(cx, cy);
                    grid_insert(&mut grid, key, b, Ghost(n as int));
                    proof {
                        assert(key == cell_key_u64(cx as int, cy as int));
                    }
                    cx = cx + 1;
                }
                cy = cy + 1;
            }
            proof {
                assert forall|k: int, cx2: int, cy2: int|
                    0 <= k < b + 1 && #[trigger] cell_in_box_range(
                    hitboxes@[k],
                    cx2,
                    cy2,
                ) implies grid_member(grid@, cell_key_u64(cx2, cy2), k) by {
                    if k == b {
                        assert(grid_member(grid@, cell_key_u64(cx2, cy2), b as int));
                    }
                }
            }
            b = b + 1;
        }
        let mut any = false;
        let mut i: usize = 0;
        while i < n
            invariant
                db.wf(),
                map.wf(),
                s0 == old(actors)@,
                n == s0.len(),
                n >= 2,
                calm == no_overlapping_pair(s0, *db),
                lone == exists|a: int, c: int| lone_pair_scenario(s0, *db, *map, a, c),
                lone ==> lone_pair_scenario(s0, *db, *map, si, sj),
                actors@.len() == n,
                marks@.len() == n,
                forall|t: int| 0 <= t < n ==> marks@[t] <= stamp,
                i <= n,
                hitboxes@.len() == n,
                pass_start.len() == n,
                grid_wf(grid@, n as int),
                grid_covers(grid@, hitboxes@, n as int),
                collide_cache_wf(collide_cache@, *db),
                forall|k: int|
                    0 <= k < n ==> (#[trigger] hitboxes@[k]) == world_rect(
                        db.entities@[pass_start[k].instance.def as int].hitbox,
                        pass_start[k].instance.pos,
                    ) && rect_wide(hitboxes@[k]),
                forall|k: int|
                    0 <= k < n ==> (#[trigger] actors@[k]).instance.same_except_pos(
                        pass_start[k].instance,
                    ),
                forall|k: int|
                    0 <= k < n ==> (#[trigger] pass_start[k]).instance.same_except_pos(
                        s0[k].instance,
                    ),
                forall|k: int| 0 <= k < n ==> (#[trigger] actors@[k]).instance.wf(),
                forall|k: int|
                    0 <= k < n ==> (#[trigger] actors@[k]).instance.def < db.entities@.len(),
                calm ==> forall|k: int|
                    0 <= k < n ==> (#[trigger] pass_start[k]).instance.pos == s0[k].instance.pos,
                calm && !any ==> forall|k: int|
                    0 <= k < n ==> (#[trigger] actors@[k]).instance.pos == s0[k].instance.pos,
                calm ==> !any,
                lone && pass == 0 ==> positions_match(pass_start, s0),
                lone && pass == 0 && i <= si ==> !any && positions_match(actors@, s0),
                lone && pass == 0 && i > si ==> any && lone_mid(actors@, s0, *db, si, sj),
                lone && pass == 1 ==> lone_fin(pass_start, s0, *db, *map, si, sj) && !any
                    && lone_fin(actors@, s0, *db, *map, si, sj),
            decreases n - i,
        {
            if stamp == u64::MAX {
                reset_marks(&mut marks);
                stamp = 1;
            } else {
                stamp = stamp + 1;
            }
            let a_hb = hitboxes[i];
            proof {
                assert(rect_wide(hitboxes@[i as int]));
            }
            let min_cx = cell_of(a_hb.x);
            let max_cx = cell_of(a_hb.x + a_hb.w);
            let min_cy = cell_of(a_hb.y);
            let max_cy = cell_of(a_hb.y + a_hb.h);
            let ghost cxs = spec_cell_of(
                if hitboxes@[si].x >= hitboxes@[sj].x {
                    hitboxes@[si].x as int
                } else {
                    hitboxes@[sj].x as int
                },
            );
            let ghost cys = spec_cell_of(
                if hitboxes@[si].y >= hitboxes@[sj].y {
                    hitboxes@[si].y as int
                } else {
                    hitboxes@[sj].y as int
                },
            );
            proof {
                vstd::arithmetic::div_mod::lemma_div_is_ordered(
                    a_hb.x as int,
                    a_hb.x + a_hb.w,
                    SEPARATION_CELL as int,
                );
                vstd::arithmetic::div_mod::lemma_div_is_ordered(
                    a_hb.y as int,
                    a_hb.y + a_hb.h,
                    SEPARATION_CELL as int,
                );
                if lone && pass == 0 {
                    assert(hitboxes@[si] == actor_box(s0, *db, si));
                    assert(hitboxes@[sj] == actor_box(s0, *db, sj));
                    lemma_overlap_shared_cell(hitboxes@[si], hitboxes@[sj]);
                    assert(cell_in_box_range(hitboxes@[si], cxs, cys));
                    assert(cell_in_box_range(hitboxes@[sj], cxs, cys));
                }
            }
            let mut cy = min_cy;
            while cy <= max_cy
                invariant
                    db.wf(),
                    map.wf(),
                    s0 == old(actors)@,
                    n == s0.len(),
                    n >= 2,
                    calm == no_overlapping_pair(s0, *db),
                    lone == exists|a: int, c: int| lone_pair_scenario(s0, *db, *map, a, c),
                    lone ==> lone_pair_scenario(s0, *db, *map, si, sj),
                    actors@.len() == n,
                    marks@.len() == n,
                    forall|t: int| 0 <= t < n ==> marks@[t] <= stamp,
                    i < n,
                    hitboxes@.len() == n,
                    pass_start.len() == n,
                    grid_wf(grid@, n as int),
                    grid_covers(grid@, hitboxes@, n as int),
                    collide_cache_wf(collide_cache@, *db),
                    min_cy <= cy,
                    cy <= max_cy + 1,
                    min_cx <= max_cx + 1,
                    min_cx == spec_cell_of(a_hb.x as int),
                    max_cx == spec_cell_of(a_hb.x + a_hb.w),
                    min_cy == spec_cell_of(a_hb.y as int),
                    max_cy == spec_cell_of(a_hb.y + a_hb.h),
                    -0x4000_0000 <= min_cx <= 0x4000_0000,
                    -0x4000_0000 <= max_cx <= 0x4000_0000,
                    -0x4000_0000 <= min_cy <= 0x4000_0000,
                    -0x4000_0000 <= max_cy <= 0x4000_0000,
                    a_hb == hitboxes@[i as int],
                    forall|k: int|
                        0 <= k < n ==> (#[trigger] hitboxes@[k]) == world_rect(
                            db.entities@[pass_start[k].instance.def as int].hitbox,
                            pass_start[k].instance.pos,
                        ) && rect_wide(hitboxes@[k]),
                    forall|k: int|
                        0 <= k < n ==> (#[trigger] actors@[k]).instance.same_except_pos(
                            pass_start[k].instance,
                        ),
                    forall|k: int|
                        0 <= k < n ==> (#[trigger] pass_start[k]).instance.same_except_pos(
                            s0[k].instance,
                        ),
                    forall|k: int| 0 <= k < n ==> (#[trigger] actors@[k]).instance.wf(),
                    forall|k: int|
                        0 <= k < n ==> (#[trigger] actors@[k]).instance.def
                            < db.entities@.len(),
                    calm ==> forall|k: int|
                        0 <= k < n ==> (#[trigger] pass_start[k]).instance.pos
                            == s0[k].instance.pos,
                    calm && !any ==> forall|k: int|
                        0 <= k < n ==> (#[trigger] actors@[k]).instance.pos
                            == s0[k].instance.pos,
                    calm ==> !any,
                    lone && pass == 0 ==> positions_match(pass_start, s0),
                    lone && pass == 0 ==> cell_in_box_range(hitboxes@[si], cxs, cys)
                        && cell_in_box_range(hitboxes@[sj], cxs, cys),
                    lone && pass == 0 && i < si ==> !any && positions_match(actors@, s0),
                    lone && pass == 0 && i > si ==> any && lone_mid(actors@, s0, *db, si, sj),
                    lone && pass == 0 && i == si ==> ((!any && positions_match(actors@, s0)) || (
                    any && lone_mid(actors@, s0, *db, si, sj))),
                    lone && pass == 0 && i == si && cy > cys ==> any,
                    lone && pass == 0 && i == si && marks@[sj] == stamp ==> any,
                    lone && pass == 0 && i == si && any ==> marks@[sj] == stamp,
                    lone && pass == 1 ==> lone_fin(pass_start, s0, *db, *map, si, sj) && !any
                        && lone_fin(actors@, s0, *db, *map, si, sj),
                decreases max_cy + 1 - cy,
            {
                let mut cx = min_cx;
                while cx <= max_cx
                    invariant
                        db.wf(),
                        map.wf(),
                        s0 == old(actors)@,
                        n == s0.len(),
                        n >= 2,
                        calm == no_overlapping_pair(s0, *db),
                        lone == exists|a: int, c: int| lone_pair_scenario(s0, *db, *map, a, c),
                        lone ==> lone_pair_scenario(s0, *db, *map, si, sj),
                        actors@.len() == n,
                        marks@.len() == n,
                        forall|t: int| 0 <= t < n ==> marks@[t] <= stamp,
                        i < n,
                        hitboxes@.len() == n,
                        pass_start.len() == n,
                        grid_wf(grid@, n as int),
                        grid_covers(grid@, hitboxes@, n as int),
                        collide_cache_wf(collide_cache@, *db),
                        min_cx <= cx,
                        cx <= max_cx + 1,
                        -0x4000_0000 <= min_cx,
                        -0x4000_0000 <= max_cx <= 0x4000_0000,
                        -0x4000_0000 <= cy <= 0x4000_0001,
                        min_cy <= cy,
                        cy <= max_cy + 1,
                        a_hb == hitboxes@[i as int],
                        forall|k: int|
                            0 <= k < n ==> (#[trigger] hitboxes@[k]) == world_rect(
                                db.entities@[pass_start[k].instance.def as int].hitbox,
                                pass_start[k].instance.pos,
                            ) && rect_wide(hitboxes@[k]),
                        forall|k: int|
                            0 <= k < n ==> (#[trigger] actors@[k]).instance.same_except_pos(
                                pass_start[k].instance,
                            ),
                        forall|k: int|
                            0 <= k < n ==> (#[trigger] pass_start[k]).instance.same_except_pos(
                                s0[k].instance,
                            ),
                        forall|k: int| 0 <= k < n ==> (#[trigger] actors@[k]).instance.wf(),
                        forall|k: int|
                            0 <= k < n ==> (#[trigger] actors@[k]).instance.def
                                < db.entities@.len(),
                        calm ==> forall|k: int|
                            0 <= k < n ==> (#[trigger] pass_start[k]).instance.pos
                                == s0[k].instance.pos,
                        calm && !any ==> forall|k: int|
                            0 <= k < n ==> (#[trigger] actors@[k]).instance.pos
                                == s0[k].instance.pos,
                        calm ==> !any,
                        lone && pass == 0 ==> positions_match(pass_start, s0),
                        lone && pass == 0 ==> cell_in_box_range(hitboxes@[si], cxs, cys)
                            && cell_in_box_range(hitboxes@[sj], cxs, cys),
                        lone && pass == 0 && i < si ==> !any && positions_match(actors@, s0),
                        lone && pass == 0 && i > si ==> any && lone_mid(
                            actors@,
                            s0,
                            *db,
                            si,
                            sj,
                        ),
                        lone && pass == 0 && i == si ==> ((!any && positions_match(actors@, s0))
                            || (any && lone_mid(actors@, s0, *db, si, sj))),
                        lone && pass == 0 && i == si && (cy > cys || (cy == cys && cx > cxs))
                            ==> any,
                        lone && pass == 0 && i == si && marks@[sj] == stamp ==> any,
                        lone && pass == 0 && i == si && any ==> marks@[sj] == stamp,
                        lone && pass == 1 ==> lone_fin(pass_start, s0, *db, *map, si, sj) && !any
                            && lone_fin(actors@, s0, *db, *map, si, sj),
                    decreases max_cx + 1 - cx,
                {
                    let key = pack_cell(cx, cy);
                    let bucket_len: usize;
                    match grid.get(&key) {
                        Some(bucket) => {
                            bucket_len = bucket.len();
                        },
                        None => {
                            bucket_len = 0;
                        },
                    }
                    let mut m: usize = 0;
                    while m < bucket_len
                        invariant
                            db.wf(),
                            map.wf(),
                            s0 == old(actors)@,
                            n == s0.len(),
                            n >= 2,
                            calm == no_overlapping_pair(s0, *db),
                            lone == exists|a: int, c: int|
                                lone_pair_scenario(s0, *db, *map, a, c),
                            lone ==> lone_pair_scenario(s0, *db, *map, si, sj),
                            actors@.len() == n,
                            marks@.len() == n,
                            forall|t: int| 0 <= t < n ==> marks@[t] <= stamp,
                            i < n,
                            hitboxes@.len() == n,
                            pass_start.len() == n,
                            grid_wf(grid@, n as int),
                            grid_covers(grid@, hitboxes@, n as int),
                            collide_cache_wf(collide_cache@, *db),
                            m <= bucket_len,
                            grid@.contains_key(key) ==> bucket_len == grid@[key]@.len(),
                            !grid@.contains_key(key) ==> bucket_len == 0,
                            key == cell_key_u64(cx as int, cy as int),
                            a_hb == hitboxes@[i as int],
                            forall|k: int|
                                0 <= k < n ==> (#[trigger] hitboxes@[k]) == world_rect(
                                    db.entities@[pass_start[k].instance.def as int].hitbox,
                                    pass_start[k].instance.pos,
                                ) && rect_wide(hitboxes@[k]),
                            forall|k: int|
                                0 <= k < n ==> (#[trigger] actors@[k]).instance.same_except_pos(
                                    pass_start[k].instance,
                                ),
                            forall|k: int|
                                0 <= k < n
                                    ==> (#[trigger] pass_start[k]).instance.same_except_pos(
                                    s0[k].instance,
                                ),
                            forall|k: int| 0 <= k < n ==> (#[trigger] actors@[k]).instance.wf(),
                            forall|k: int|
                                0 <= k < n ==> (#[trigger] actors@[k]).instance.def
                                    < db.entities@.len(),
                            calm ==> forall|k: int|
                                0 <= k < n ==> (#[trigger] pass_start[k]).instance.pos
                                    == s0[k].instance.pos,
                            calm && !any ==> forall|k: int|
                                0 <= k < n ==> (#[trigger] actors@[k]).instance.pos
                                    == s0[k].instance.pos,
                            calm ==> !any,
                            lone && pass == 0 ==> positions_match(pass_start, s0),
                            lone && pass == 0 && i < si ==> !any && positions_match(
                                actors@,
                                s0,
                            ),
                            lone && pass == 0 && i > si ==> any && lone_mid(
                                actors@,
                                s0,
                                *db,
                                si,
                                sj,
                            ),
                            lone && pass == 0 && i == si ==> ((!any && positions_match(
                                actors@,
                                s0,
                            )) || (any && lone_mid(actors@, s0, *db, si, sj))),
                            lone && pass == 0 && i == si && marks@[sj] == stamp ==> any,
                            lone && pass == 0 && i == si && any ==> marks@[sj] == stamp,
                            lone && pass == 0 ==> cell_in_box_range(hitboxes@[si], cxs, cys)
                                && cell_in_box_range(hitboxes@[sj], cxs, cys),
                            lone && pass == 0 && i == si && (cy > cys || (cy == cys && cx
                                > cxs)) ==> any,
                            lone && pass == 0 && i == si && cx == cxs && cy == cys ==> (any
                                || forall|t: int|
                                0 <= t < m ==> grid@[key]@[t] != sj),
                            lone && pass == 1 ==> lone_fin(pass_start, s0, *db, *map, si, sj)
                                && !any && lone_fin(actors@, s0, *db, *map, si, sj),
                        decreases bucket_len - m,
                    {
                        let j: usize;
                        match grid.get(&key) {
                            Some(bucket) => {
                                j = bucket[m];
                            },
                            None => {
                                j = 0;
                            },
                        }
                        proof {
                            assert(j < n);
                        }
                        if j > i && marks[j] != stamp {
                            marks[j] = stamp;
                            let a_def_idx = actors[i].instance.def;
                            let b_def_idx = actors[j].instance.def;
                            if cached_should_collide(&mut collide_cache, db, a_def_idx, b_def_idx)
                            {
                                let b_hb = hitboxes[j];
                                let a_hb_now = hitboxes[i];
                                let ghost before = actors@;
                                let mut pa = actors[i].instance.pos;
                                let mut pb = actors[j].instance.pos;
                                separate_pair(&mut pa, &mut pb, a_hb_now, b_hb);
                                if !(pa == actors[i].instance.pos && pb
                                    == actors[j].instance.pos) {
                                    proof {
                                        assert(strictly_overlap(a_hb_now, b_hb));
                                        if calm {
                                            assert(pass_start[i as int].instance.pos
                                                == s0[i as int].instance.pos);
                                            assert(pass_start[j as int].instance.pos
                                                == s0[j as int].instance.pos);
                                            assert(pass_start[i as int].instance.def
                                                == s0[i as int].instance.def);
                                            assert(pass_start[j as int].instance.def
                                                == s0[j as int].instance.def);
                                            assert(false);
                                        }
                                        if lone && pass == 0 {
                                            assert(actor_box(s0, *db, i as int) == a_hb_now);
                                            assert(actor_box(s0, *db, j as int) == b_hb);
                                            assert(colliding_pair(s0, *db, i as int, j as int));
                                            assert(i == si && j == sj);
                                            assert(!any);
                                            assert(positions_match(actors@, s0));
                                        }
                                        if lone && pass == 1 {
                                            assert(lone_pair_box(s0, *db, *map, si, sj, i as int)
                                                == a_hb_now);
                                            assert(lone_pair_box(s0, *db, *map, si, sj, j as int)
                                                == b_hb);
                                            assert(false);
                                        }
                                    }
                                    any = true;
                                    actors[i].instance.pos = pa;
                                    actors[j].instance.pos = pb;
                                    proof {
                                        assert forall|k: int|
                                            0 <= k < n implies (#[trigger] actors@[k]).instance.same_except_pos(
                                            pass_start[k].instance,
                                        ) && actors@[k].instance.wf() by {
                                            if k != i && k != j {
                                                assert(actors@[k] == before[k]);
                                            }
                                        }
                                        if lone && pass == 0 {
                                            assert forall|k: int|
                                                0 <= k < n && k != si && k != sj implies (
                                            #[trigger] actors@[k]).instance.pos
                                                == s0[k].instance.pos by {
                                                assert(actors@[k] == before[k]);
                                            }
                                            assert(lone_mid(actors@, s0, *db, si, sj));
                                        }
                                    }
                                } else {
                                    proof {
                                        if lone && pass == 0 && i == si && j == sj {
                                            assert(!any);
                                            assert(a_hb_now == actor_box(s0, *db, si));
                                            assert(b_hb == actor_box(s0, *db, sj));
                                            assert(actors@[si].instance.pos
                                                == s0[si].instance.pos);
                                            assert(actors@[sj].instance.pos
                                                == s0[sj].instance.pos);
                                            lemma_separation_changes(
                                                a_hb_now,
                                                b_hb,
                                                s0[si].instance.pos,
                                                s0[sj].instance.pos,
                                            );
                                            assert(false);
                                        }
                                    }
                                }
                            }
                            proof {
                                if lone && pass == 0 && i == si && j == sj {
                                    assert(colliding_pair(s0, *db, si, sj));
                                    assert(spec_should_collide(
                                        *db,
                                        actors@[si].instance.def as int,
                                        actors@[sj].instance.def as int,
                                    ));
                                    assert(any);
                                }
                            }
                        }
                        m = m + 1;
                    }
                    proof {
                        if lone && pass == 0 && i == si && cx == cxs && cy == cys && !any {
                            assert(cell_in_box_range(hitboxes@[sj], cxs, cys));
                            assert(grid_member(grid@, cell_key_u64(cxs, cys), sj));
                            let w = choose|t: int|
                                0 <= t < grid@[key]@.len() && grid@[key]@[t] == sj;
                            assert(grid@[key]@[w] != sj);
                            assert(false);
                        }
                    }
                    cx = cx + 1;
                }
                cy = cy + 1;
            }
            proof {
                if lone && pass == 0 && i == si {
                    assert(cy > cys);
                    assert(any);
                }
            }
            i = i + 1;
        }
        if !any {
            done = true;
            proof {
                if lone && pass == 0 {
                    assert(any);
                    assert(false);
                }
            }
        } else {
            proof {
                if lone && pass == 1 {
                    assert(false);
                }
            }
            let mut c: usize = 0;
            while c < n
                invariant
                    db.wf(),
                    map.wf(),
                    s0 == old(actors)@,
                    n == s0.len(),
                    lone == exists|a: int, c2: int| lone_pair_scenario(s0, *db, *map, a, c2),
                    lone ==> lone_pair_scenario(s0, *db, *map, si, sj),
                    actors@.len() == n,
                    c <= n,
                    forall|k: int|
                        0 <= k < n ==> (#[trigger] actors@[k]).instance.same_except_pos(
                            s0[k].instance,
                        ),
                    forall|k: int| 0 <= k < n ==> (#[trigger] actors@[k]).instance.wf(),
                    forall|k: int|
                        0 <= k < n ==> (#[trigger] actors@[k]).instance.def
                            < db.entities@.len(),
                    forall|k: int|
                        0 <= k < n ==> db.entities@[(#[trigger] actors@[k]).instance.def as int].hitbox.w
                            <= map.spec_border_hitbox().w && db.entities@[actors@[k].instance.def as int].hitbox.h
                            <= map.spec_border_hitbox().h,
                    lone && pass == 0 ==> forall|k: int|
                        c <= k < n ==> (#[trigger] actors@[k]).instance.pos == (if k == si {
                            spec_separated(
                                actor_box(s0, *db, si),
                                actor_box(s0, *db, sj),
                                s0[si].instance.pos,
                                s0[sj].instance.pos,
                            ).0
                        } else if k == sj {
                            spec_separated(
                                actor_box(s0, *db, si),
                                actor_box(s0, *db, sj),
                                s0[si].instance.pos,
                                s0[sj].instance.pos,
                            ).1
                        } else {
                            s0[k].instance.pos
                        }),
                    lone && pass == 0 ==> forall|k: int|
                        0 <= k < c ==> (#[trigger] actors@[k]).instance.pos == lone_pair_pos(
                            s0,
                            *db,
                            *map,
                            si,
                            sj,
                            k,
                        ),
                decreases n - c,
            {
                let ghost before = actors@;
                let mut e = actors.remove(c);
                e.clamp_to_map(map, db);
                actors.insert(c, e);
                proof {
                    assert forall|k: int|
                        0 <= k < n implies (#[trigger] actors@[k]).instance.same_except_pos(
                        s0[k].instance,
                    ) && actors@[k].instance.wf() by {
                        if k != c {
                            assert(actors@[k] == before[k]);
                        }
                    }
                    if lone && pass == 0 {
                        assert forall|k: int| 0 <= k < c + 1 implies (
                        #[trigger] actors@[k]).instance.pos == lone_pair_pos(
                            s0,
                            *db,
                            *map,
                            si,
                            sj,
                            k,
                        ) by {
                            if k < c {
                                assert(actors@[k] == before[k]);
                            } else {
                                assert(actors@[c as int].instance.pos
                                    == spec_clamp_to_border(
                                    *map,
                                    db.entities@[s0[c as int].instance.def as int].hitbox,
                                    before[c as int].instance.pos,
                                ));
                            }
                        }
                        assert forall|k: int| c + 1 <= k < n implies (
                        #[trigger] actors@[k]).instance.pos == (if k == si {
                            spec_separated(
                                actor_box(s0, *db, si),
                                actor_box(s0, *db, sj),
                                s0[si].instance.pos,
                                s0[sj].instance.pos,
                            ).0
                        } else if k == sj {
                            spec_separated(
                                actor_box(s0, *db, si),
                                actor_box(s0, *db, sj),
                                s0[si].instance.pos,
                                s0[sj].instance.pos,
                            ).1
                        } else {
                            s0[k].instance.pos
                        }) by {
                            assert(actors@[k] == before[k]);
                        }
                    }
                }
                c = c + 1;
            }
            proof {
                if lone && pass == 0 {
                    assert(lone_fin(actors@, s0, *db, *map, si, sj));
                }
            }
        }
        pass = pass + 1;
    }
    proof {
        if lone {
            assert(done);
            assert(lone_fin(actors@, s0, *db, *map, si, sj));
            assert forall|i: int, j: int|
                #[trigger] lone_pair_scenario(s0, *db, *map, i, j) implies lone_fin(
                actors@,
                s0,
                *db,
                *map,
                i,
                j,
            ) by {
                assert(lone_pair_scenario(s0, *db, *map, si, sj));
                assert(colliding_pair(s0, *db, i, j));
                if !(i == si && j == sj) {
                    assert(!colliding_pair(s0, *db, i, j));
                }
            }
        } else {
            assert forall|i: int, j: int|
                #[trigger] lone_pair_scenario(s0, *db, *map, i, j) implies lone_fin(
                actors@,
                s0,
                *db,
                *map,
                i,
                j,
            ) by {
                assert(exists|a: int, c: int| lone_pair_scenario(s0, *db, *map, a, c));
            }
        }
    }
}

/// A strictly overlapping pair whose separation stays in the scalar range
/// really moves: the pushed coordinates differ from the old ones.
proof fn lemma_separation_changes(a_hb: FxRect, b_hb: FxRect, pa: FxVec, pb: FxVec)
    requires
        strictly_overlap(a_hb, b_hb),
        spec_sep_in_range(a_hb, b_hb, pa, pb),
    ensures
        !(spec_separated(a_hb, b_hb, pa, pb).0 == pa && spec_separated(a_hb, b_hb, pa, pb).1
            == pb),
{
    if overlap_x(a_hb, b_hb) <= overlap_y(a_hb, b_hb) {
        let sign = spec_push_sign_x(a_hb, b_hb);
        let push = overlap_x(a_hb, b_hb) / 2 + SEPARATION_EPSILON;
        assert(push >= 1);
        assert(fx_clamp(pa.x + sign * push) == pa.x + sign * push);
        assert(sign * push != 0) by (nonlinear_arith)
            requires
                (sign == 1 || sign == -1) && push >= 1,
        ;
    } else {
        let sign = spec_push_sign_y(a_hb, b_hb);
        let push = overlap_y(a_hb, b_hb) / 2 + SEPARATION_EPSILON;
        assert(push >= 1);
        assert(fx_clamp(pa.y + sign * push) == pa.y + sign * push);
        assert(sign * push != 0) by (nonlinear_arith)
            requires
                (sign == 1 || sign == -1) && push >= 1,
        ;
    }
}

} // verus!
