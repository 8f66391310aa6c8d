//! Target resolution: priority order, kind filtering, nearest selection,
//! and the cross-frame cache.

use cropbots_core::target::{Target, PlayerTarget, EntityTarget, EntityContext, TargetCache};
use cropbots_core::flags::{EntityKind, DEF_FLAG_TARGET_PLAYER, DEF_FLAG_TARGET_NEAREST_ENTITY,
    DEF_FLAG_TARGET_NEAREST_ENEMY};
use cropbots_core::geom::{FxVec, FxRect};

fn candidate(id: u64, kind: EntityKind, x: i64, alive: bool) -> EntityTarget {
    EntityTarget {
        id,
        def: 0,
        kind,
        pos: FxVec { x, y: 0 },
        hitbox: FxRect { x, y: 0, w: 1000, h: 1000 },
        alive,
    }
}

fn context_with(entities: Vec<EntityTarget>) -> EntityContext {
    EntityContext {
        player: None,
        target: None,
        entities,
        target_cache: TargetCache::new(),
        view_height: 300_000,
        damage_events: Vec::new(),
    }
}

const ACTOR: u64 = 100;

fn origin() -> FxVec {
    FxVec { x: 0, y: 0 }
}

#[test]
fn a_forced_target_short_circuits_everything() {
    let mut ctx = context_with(vec![candidate(1, EntityKind::Enemy, 10, true)]);
    let forced = Target::Position(FxVec { x: 7, y: 8 });
    ctx.target = Some(forced);
    let r = ctx.resolve_target(DEF_FLAG_TARGET_NEAREST_ENTITY, ACTOR, origin());
    assert!(matches!(r, Some(Target::Position(p)) if p.x == 7 && p.y == 8));
}

#[test]
fn the_target_player_flag_returns_the_player_snapshot() {
    let mut ctx = context_with(vec![candidate(1, EntityKind::Enemy, 10, true)]);
    ctx.player = Some(PlayerTarget {
        pos: FxVec { x: 5, y: 5 },
        hitbox: FxRect { x: 0, y: 0, w: 1000, h: 1000 },
    });
    let r = ctx.resolve_target(DEF_FLAG_TARGET_PLAYER, ACTOR, origin());
    assert!(matches!(r, Some(Target::Player(p)) if p.pos.x == 5));
    // With the player absent (dead), there is no target.
    ctx.player = None;
    let r2 = ctx.resolve_target(DEF_FLAG_TARGET_PLAYER, ACTOR, origin());
    assert!(r2.is_none());
}

#[test]
fn an_empty_mask_yields_no_target() {
    let mut ctx = context_with(vec![candidate(1, EntityKind::Enemy, 10, true)]);
    let r = ctx.resolve_target(0, ACTOR, origin());
    assert!(r.is_none());
}

#[test]
fn enemy_only_mask_skips_a_nearer_friend() {
    // Scenario: enemy at distance 10, friend at distance 1; with the
    // target-nearest-enemy flag only, the enemy must win.
    let mut ctx = context_with(vec![
        candidate(1, EntityKind::Enemy, 10_000, true),
        candidate(2, EntityKind::Friend, 1000, true),
    ]);
    let r = ctx.resolve_target(DEF_FLAG_TARGET_NEAREST_ENEMY, ACTOR, origin());
    match r {
        Some(Target::Entity(t)) => assert_eq!(t.id, 1),
        other => panic!("expected the enemy, got {:?}", other),
    }
}

#[test]
fn specific_bits_gate_even_with_the_any_bit_set() {
    let mut ctx = context_with(vec![
        candidate(1, EntityKind::Enemy, 10_000, true),
        candidate(2, EntityKind::Friend, 1000, true),
    ]);
    let flags = DEF_FLAG_TARGET_NEAREST_ENTITY | DEF_FLAG_TARGET_NEAREST_ENEMY;
    let r = ctx.resolve_target(flags, ACTOR, origin());
    match r {
        Some(Target::Entity(t)) => assert_eq!(t.id, 1),
        other => panic!("expected the enemy, got {:?}", other),
    }
}

#[test]
fn nearest_selection_keeps_the_earliest_on_ties_and_skips_the_dead() {
    let mut ctx = context_with(vec![
        candidate(1, EntityKind::Enemy, 5000, false), // dead: skipped
        candidate(2, EntityKind::Enemy, 7000, true),
        candidate(3, EntityKind::Enemy, -7000, true), // same distance: later
    ]);
    let r = ctx.resolve_target(DEF_FLAG_TARGET_NEAREST_ENEMY, ACTOR, origin());
    match r {
        Some(Target::Entity(t)) => assert_eq!(t.id, 2),
        other => panic!("expected candidate 2, got {:?}", other),
    }
}

#[test]
fn the_actor_never_targets_itself() {
    let mut ctx = context_with(vec![candidate(ACTOR, EntityKind::Enemy, 0, true)]);
    let r = ctx.resolve_target(DEF_FLAG_TARGET_NEAREST_ENEMY, ACTOR, origin());
    assert!(r.is_none());
}

#[test]
fn a_cached_no_target_answer_is_sticky() {
    // First resolution with no candidates records "no target".
    let mut ctx = context_with(vec![]);
    let r1 = ctx.resolve_target(DEF_FLAG_TARGET_NEAREST_ENEMY, ACTOR, origin());
    assert!(r1.is_none());
    // A candidate appears in the snapshot, but the cached "no target"
    // answer short-circuits: no implicit expiry.
    ctx.entities.push(candidate(1, EntityKind::Enemy, 5000, true));
    let r2 = ctx.resolve_target(DEF_FLAG_TARGET_NEAREST_ENEMY, ACTOR, origin());
    assert!(r2.is_none());
    let r3 = ctx.resolve_target(DEF_FLAG_TARGET_NEAREST_ENEMY, ACTOR, origin());
    assert!(r3.is_none());
    // A different mask is a different cache entry and does recompute.
    let r4 = ctx.resolve_target(DEF_FLAG_TARGET_NEAREST_ENTITY, ACTOR, origin());
    assert!(matches!(r4, Some(Target::Entity(t)) if t.id == 1));
}

#[test]
fn a_cached_actor_target_is_revalidated_against_the_snapshot() {
    let mut ctx = context_with(vec![
        candidate(1, EntityKind::Enemy, 5000, true),
        candidate(2, EntityKind::Enemy, 9000, true),
    ]);
    let r1 = ctx.resolve_target(DEF_FLAG_TARGET_NEAREST_ENEMY, ACTOR, origin());
    assert!(matches!(r1, Some(Target::Entity(t)) if t.id == 1));
    // The cached target dies; resolution falls through to a fresh scan.
    ctx.entities[0].alive = false;
    let r2 = ctx.resolve_target(DEF_FLAG_TARGET_NEAREST_ENEMY, ACTOR, origin());
    assert!(matches!(r2, Some(Target::Entity(t)) if t.id == 2));
}

#[test]
fn target_accessors_expose_position_and_hitbox() {
    let t = Target::Entity(candidate(1, EntityKind::Misc, 4000, true));
    assert_eq!(t.position(), FxVec { x: 4000, y: 0 });
    assert!(t.hitbox().is_some());
    let p = Target::Position(FxVec { x: 1, y: 2 });
    assert!(p.hitbox().is_none());
}
