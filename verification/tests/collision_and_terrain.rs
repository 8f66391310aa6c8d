//! Axis-separated collision resolution and the terrain grid.

use cropbots_core::collision::{Axis, resolve_collisions_axis, collision_radius,
    collect_dynamic_collision_hitboxes};
use cropbots_core::target::{Target, PlayerTarget, EntityTarget, EntityContext, TargetCache};
use cropbots_core::flags::{EntityKind, DEF_FLAG_NO_ENTITY_COLLISION,
    DEF_FLAG_NO_FRIEND_COLLISION, DEF_FLAG_NO_PLAYER_COLLISION};
use cropbots_core::geom::{FxVec, FxRect};
use cropbots_core::terrain::{TerrainGrid, GridIndex};

#[test]
fn resolving_without_overlap_changes_nothing() {
    // The no-op law: the actor is not overlapping the obstacle, so the
    // position and velocity come back exactly unchanged.
    let hitbox = FxRect { x: 0, y: 0, w: 1000, h: 1000 };
    let pos = FxVec { x: 0, y: 0 };
    let colliders = vec![FxRect { x: 5000, y: 0, w: 1000, h: 1000 }];
    let (p, v) = resolve_collisions_axis(hitbox, pos, 700, &colliders, Axis::X);
    assert_eq!(p, pos);
    assert_eq!(v, 700);
    let (p2, v2) = resolve_collisions_axis(hitbox, pos, -700, &colliders, Axis::Y);
    assert_eq!(p2, pos);
    assert_eq!(v2, -700);
}

#[test]
fn zero_axis_velocity_is_a_no_op_even_when_overlapping() {
    let hitbox = FxRect { x: 0, y: 0, w: 1000, h: 1000 };
    let pos = FxVec { x: 0, y: 0 };
    let colliders = vec![FxRect { x: 500, y: 0, w: 1000, h: 1000 }];
    let (p, v) = resolve_collisions_axis(hitbox, pos, 0, &colliders, Axis::X);
    assert_eq!(p, pos);
    assert_eq!(v, 0);
}

#[test]
fn a_moving_actor_is_pushed_to_the_obstacle_edge() {
    let hitbox = FxRect { x: 0, y: 0, w: 1000, h: 1000 };
    // Overlapping an obstacle whose left edge is at 800, moving right:
    // pushed back to 800 - 1000 - 0 - 1 = -201.
    let pos = FxVec { x: 0, y: 0 };
    let colliders = vec![FxRect { x: 800, y: 0, w: 1000, h: 1000 }];
    let (p, v) = resolve_collisions_axis(hitbox, pos, 500, &colliders, Axis::X);
    assert_eq!(p.x, -201);
    assert_eq!(p.y, 0);
    assert_eq!(v, 0);
    // Moving left against an obstacle ending at x == 300: pushed to 301.
    let colliders2 = vec![FxRect { x: -700, y: 0, w: 1000, h: 1000 }];
    let (p2, v2) = resolve_collisions_axis(hitbox, pos, -500, &colliders2, Axis::X);
    assert_eq!(p2.x, 301);
    assert_eq!(v2, 0);
}

#[test]
fn the_probe_radius_grows_with_speed_and_caps_at_four() {
    let ts = 16_000; // a 16-unit tile
    let still = FxVec { x: 0, y: 0 };
    assert_eq!(collision_radius(ts, still, 17), 1);
    let slow = FxVec { x: 1000, y: 0 }; // any movement probes one tile out
    assert_eq!(collision_radius(ts, slow, 17), 2);
    let fast = FxVec { x: 2_000_000, y: 0 }; // 2000 units per second
    assert_eq!(collision_radius(ts, fast, 17), 4);
    let mid = FxVec { x: 1_000_000, y: 0 }; // sweeps about one tile per frame
    assert_eq!(collision_radius(ts, mid, 17), 3);
}

fn snapshot(id: u64, kind: EntityKind, x: i64) -> EntityTarget {
    EntityTarget {
        id,
        def: 0,
        kind,
        pos: FxVec { x, y: 0 },
        hitbox: FxRect { x, y: 0, w: 1000, h: 1000 },
        alive: true,
    }
}

#[test]
fn dynamic_obstacles_honor_exemptions_and_the_current_target() {
    let ctx = EntityContext {
        player: Some(PlayerTarget {
            pos: FxVec { x: 0, y: 0 },
            hitbox: FxRect { x: -100, y: -100, w: 200, h: 200 },
        }),
        target: None,
        entities: vec![
            snapshot(1, EntityKind::Enemy, 1000),
            snapshot(2, EntityKind::Friend, 2000),
            snapshot(3, EntityKind::Misc, 3000),
        ],
        target_cache: TargetCache::new(),
        view_height: 300_000,
        damage_events: Vec::new(),
    };
    let mut out: Vec<FxRect> = Vec::new();
    // No exemptions, no target: the player plus all three actors.
    collect_dynamic_collision_hitboxes(0, 99, None, &ctx, &mut out);
    assert_eq!(out.len(), 4);
    // The global exemption empties the list.
    collect_dynamic_collision_hitboxes(DEF_FLAG_NO_ENTITY_COLLISION, 99, None, &ctx, &mut out);
    assert_eq!(out.len(), 0);
    // A per-kind exemption removes that kind; the current actor target is
    // skipped too.
    let tgt = Some(Target::Entity(snapshot(3, EntityKind::Misc, 3000)));
    collect_dynamic_collision_hitboxes(DEF_FLAG_NO_FRIEND_COLLISION, 99, tgt, &ctx, &mut out);
    assert_eq!(out.len(), 2); // player + enemy (friend exempt, misc is the target)
    // Pursuing the player: the player's hitbox is not an obstacle.
    let ptgt = Some(Target::Player(PlayerTarget {
        pos: FxVec { x: 0, y: 0 },
        hitbox: FxRect { x: -100, y: -100, w: 200, h: 200 },
    }));
    collect_dynamic_collision_hitboxes(0, 99, ptgt, &ctx, &mut out);
    assert_eq!(out.len(), 3);
    // The no-player-collision flag does the same.
    collect_dynamic_collision_hitboxes(DEF_FLAG_NO_PLAYER_COLLISION, 99, None, &ctx, &mut out);
    assert_eq!(out.len(), 3);
    // The actor itself never appears.
    collect_dynamic_collision_hitboxes(0, 2, None, &ctx, &mut out);
    assert_eq!(out.len(), 3);
    // Dead actors are no obstacles.
    let mut with_dead = ctx;
    with_dead.entities[0].alive = false;
    collect_dynamic_collision_hitboxes(0, 99, None, &with_dead, &mut out);
    assert_eq!(out.len(), 3);
}

#[test]
fn the_grid_locates_positions_and_reports_solid_tiles() {
    let mut g = TerrainGrid::new(4, 4, 16_000, 1000);
    assert_eq!(g.tile_size(), 16_000);
    assert!(g.grid_index(FxVec { x: -1, y: 0 }).is_none());
    assert!(g.grid_index(FxVec { x: 64_000, y: 0 }).is_none());
    let idx = g.grid_index(FxVec { x: 17_000, y: 33_000 }).unwrap();
    assert_eq!((idx.x, idx.y), (1, 2));
    let border = g.get_border_hitbox();
    assert_eq!(border, FxRect { x: -1000, y: -1000, w: 66_000, h: 66_000 });

    // One fully solid tile at (1, 1).
    g.set_mask(1, 1, 0x0F);
    let mut out: Vec<FxRect> = Vec::new();
    g.fill_hitboxes_around_grid(GridIndex { x: 1, y: 1 }, 1, &mut out);
    assert_eq!(out.len(), 1);
    assert_eq!(out[0], FxRect { x: 16_000, y: 16_000, w: 16_000, h: 16_000 });
    // Out of radius: nothing.
    g.fill_hitboxes_around_grid(GridIndex { x: 3, y: 3 }, 1, &mut out);
    assert_eq!(out.len(), 0);
    // A quarter-solid tile yields quarter rectangles.
    g.set_mask(0, 0, 0b0011); // top-left and top-right quarters
    g.fill_hitboxes_around_grid(GridIndex { x: 0, y: 0 }, 0, &mut out);
    assert_eq!(out.len(), 2);
    assert_eq!(out[0], FxRect { x: 0, y: 0, w: 8000, h: 8000 });
    assert_eq!(out[1], FxRect { x: 8000, y: 0, w: 8000, h: 8000 });
    // The vector-returning form reports the same rectangles.
    let fresh = g.hitboxes_around_grid(GridIndex { x: 0, y: 0 }, 0);
    assert_eq!(fresh, out);
}

#[test]
fn directory_names_resolve_to_kinds() {
    assert_eq!(EntityKind::from_dir("enemy"), Some(EntityKind::Enemy));
    assert_eq!(EntityKind::from_dir("friend"), Some(EntityKind::Friend));
    assert_eq!(EntityKind::from_dir("misc"), Some(EntityKind::Misc));
    assert_eq!(EntityKind::from_dir("structure"), None);
}
