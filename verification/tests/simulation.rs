//! Spawning, movement routines, behavior reconciliation, the per-frame
//! update, contact damage, and the overlap separator.

use cropbots_core::actor::{Entity, EntityDef, EntityDatabase, IdGen, TraitDef,
    apply_damage_to_actor, remove_dead_actors, snapshot_actors, CONTACT_COOLDOWN};
use cropbots_core::behavior::BehaviorNode;
use cropbots_core::flags::{EntityKind, DEF_FLAG_TARGET_PLAYER};
use cropbots_core::geom::{FxVec, FxRect};
use cropbots_core::movement::{MovementKind, MovementRegistry, BehaviorRuntime, movement_wander,
    movement_dash_at_target, sync_behaviors};
use cropbots_core::separate::resolve_entity_overlaps;
use cropbots_core::table::{StatBlock, MovementParams};
use cropbots_core::target::{Target, PlayerTarget, EntityContext, TargetCache};
use cropbots_core::terrain::TerrainGrid;

fn key(s: &str) -> String {
    s.to_owned()
}

fn simple_def(id: &str, kind: EntityKind, flags: u16, stats: StatBlock) -> EntityDef {
    EntityDef {
        id: id.to_owned(),
        name: id.to_owned(),
        kind,
        hitbox: FxRect { x: 0, y: 0, w: 10_000, h: 10_000 },
        traits: Vec::new(),
        behavior_tree: None,
        base_stats: stats,
        speed: 80_000,
        collides: false,
        flags,
    }
}

fn empty_ctx() -> EntityContext {
    EntityContext {
        player: None,
        target: None,
        entities: Vec::new(),
        target_cache: TargetCache::new(),
        view_height: 300_000,
        damage_events: Vec::new(),
    }
}

fn small_map() -> TerrainGrid {
    TerrainGrid::new(64, 64, 16_000, 100_000)
}

#[test]
fn the_registry_knows_the_builtin_routines() {
    let reg = MovementRegistry::new();
    assert!(reg.has(&key("idle")));
    assert!(reg.has(&key("wander")));
    assert!(reg.has(&key("dash_at_target")));
    assert!(reg.has(&key("virabird_ai")));
    assert!(!reg.has(&key("teleport")));
    assert_eq!(reg.resolve(&key("seek")), MovementKind::Seek);
    assert_eq!(reg.resolve(&key("virabird_ai")), MovementKind::Dash);
    assert_eq!(reg.resolve(&key("teleport")), MovementKind::Idle);
}

#[test]
fn spawning_an_unknown_id_creates_nothing() {
    let db = EntityDatabase::empty();
    let reg = MovementRegistry::new();
    let mut ids = IdGen::new();
    let r = db.spawn("goblin", FxVec { x: 0, y: 0 }, &reg, &mut ids);
    assert!(r.is_none());
}

#[test]
fn spawning_merges_trait_stats_and_floors_health_and_speed() {
    let mut base = StatBlock::new();
    base.add(&key("hp"), 4000);
    let mut tstats = StatBlock::new();
    tstats.add(&key("hp"), 2500);
    tstats.add(&key("damage"), 5000);
    let mut db = EntityDatabase::empty();
    db.traits.push(TraitDef { id: key("tough"), stats: tstats, flags: Vec::new() });
    let mut def = simple_def("virat", EntityKind::Enemy, 0, base);
    def.traits.push(0);
    db.entities.push(def);
    let reg = MovementRegistry::new();
    let mut ids = IdGen::new();
    let inst = db.spawn("virat", FxVec { x: 100, y: 200 }, &reg, &mut ids).unwrap();
    assert_eq!(inst.uid, 1);
    assert_eq!(inst.hp, 6500); // 4.0 + 2.5 hit points
    assert_eq!(inst.max_hp, 6500);
    assert_eq!(inst.stats.get(&key("damage"), 0), 5000);
    assert_eq!(inst.speed, 80_000); // the base speed, no speed stat
    assert_eq!(inst.behaviors.len(), 1);
    assert_eq!(inst.behaviors[0].name, "idle"); // no behavior tree
    // Ids are handed out in order and never reused.
    let second = db.spawn("virat", FxVec { x: 0, y: 0 }, &reg, &mut ids).unwrap();
    assert_eq!(second.uid, 2);
}

#[test]
fn spawning_starts_the_first_registered_tree_action() {
    let mut db = EntityDatabase::empty();
    let mut def = simple_def("virabird", EntityKind::Enemy, 0, StatBlock::new());
    def.behavior_tree = Some(BehaviorNode::Selector {
        children: vec![
            BehaviorNode::Condition { name: key("target_in_range"), value: None },
            BehaviorNode::Action {
                name: key("wander"),
                multiple: false,
                params: MovementParams::new(),
                extra: MovementParams::new(),
            },
        ],
    });
    db.entities.push(def);
    let reg = MovementRegistry::new();
    let mut ids = IdGen::new();
    let inst = db.spawn("virabird", FxVec { x: 0, y: 0 }, &reg, &mut ids).unwrap();
    assert_eq!(inst.behaviors[0].name, "wander");
    assert_eq!(inst.behaviors[0].kind, MovementKind::Wander);
}

#[test]
fn unknown_actions_fall_back_to_idle() {
    // A tree whose only action has no registered movement routine: the
    // desired list is filtered empty and the built-in idle substitutes.
    let mut db = EntityDatabase::empty();
    let mut def = simple_def("chopbot", EntityKind::Misc, 0, StatBlock::new());
    def.behavior_tree = Some(BehaviorNode::Action {
        name: key("teleport"),
        multiple: false,
        params: MovementParams::new(),
        extra: MovementParams::new(),
    });
    db.entities.push(def);
    let reg = MovementRegistry::new();
    let map = small_map();
    let mut ids = IdGen::new();
    let mut actor = db.spawn("chopbot", FxVec { x: 0, y: 0 }, &reg, &mut ids).unwrap();
    assert_eq!(actor.behaviors[0].name, "idle"); // no registered action in the tree
    let mut ctx = empty_ctx();
    actor.update(17, &db, &mut ctx, &map, &reg);
    assert_eq!(actor.behaviors.len(), 1);
    assert_eq!(actor.behaviors[0].name, "idle");
    assert_eq!(actor.vel, FxVec { x: 0, y: 0 });
}

#[test]
fn wander_rerolls_its_direction_when_the_timer_runs_out() {
    // An active wander behavior with a 1.5 second interval, driven past it:
    // the direction must be re-rolled away from zero and the timer reset to
    // the full interval.
    let mut params = MovementParams::new();
    params.put(key("interval"), 1500);
    let mut beh = BehaviorRuntime {
        name: key("wander"),
        kind: MovementKind::Wander,
        params: params.duplicate(),
        timer: 100,
        dir: FxVec { x: 0, y: 0 },
        cooldown: 0,
    };
    let mut vel = FxVec { x: 0, y: 0 };
    movement_wander(&mut vel, FxVec { x: 0, y: 0 }, 80_000, None, &mut beh, 200, &params);
    assert_ne!(beh.dir, FxVec { x: 0, y: 0 });
    assert_eq!(beh.timer, 1500);
    // The velocity follows the new direction at the base speed.
    assert_ne!(vel, FxVec { x: 0, y: 0 });
    // Before the timer runs out the direction stays.
    let dir_before = beh.dir;
    movement_wander(&mut vel, FxVec { x: 0, y: 0 }, 80_000, None, &mut beh, 200, &params);
    assert_eq!(beh.dir, dir_before);
    assert_eq!(beh.timer, 1300);
}

#[test]
fn dashing_arms_a_cooldown_and_adds_velocity() {
    let params = MovementParams::new();
    let mut beh = BehaviorRuntime {
        name: key("dash_at_target"),
        kind: MovementKind::Dash,
        params: params.duplicate(),
        timer: 0,
        dir: FxVec { x: 0, y: 0 },
        cooldown: 0,
    };
    let mut vel = FxVec { x: 0, y: 0 };
    let target = Some(FxVec { x: 10_000, y: 0 });
    movement_dash_at_target(
        &mut vel,
        FxVec { x: 0, y: 0 },
        80_000,
        target,
        &mut beh,
        17,
        &params,
    );
    assert_eq!(beh.timer, 70); // default dash duration
    assert_eq!(beh.cooldown, 500); // default dash cooldown
    assert_eq!(beh.dir, FxVec { x: 1000, y: 0 });
    assert_eq!(vel, FxVec { x: 1_100_000, y: 0 }); // default dash speed
    // While the cooldown runs, no new dash starts.
    beh.timer = 0;
    let mut vel2 = FxVec { x: 0, y: 0 };
    movement_dash_at_target(
        &mut vel2,
        FxVec { x: 0, y: 0 },
        80_000,
        target,
        &mut beh,
        17,
        &params,
    );
    assert_eq!(vel2, FxVec { x: 0, y: 0 });
}

#[test]
fn reconciliation_reuses_state_only_for_identical_actions() {
    let reg = MovementRegistry::new();
    let mut params = MovementParams::new();
    params.put(key("interval"), 1500);
    let running = vec![BehaviorRuntime {
        name: key("wander"),
        kind: MovementKind::Wander,
        params: params.duplicate(),
        timer: 700,
        dir: FxVec { x: 1000, y: 0 },
        cooldown: 0,
    }];
    // Same name, same parameters: the runtime state survives.
    let same = vec![cropbots_core::behavior::SelectedAction {
        name: key("wander"),
        params: params.duplicate(),
    }];
    let kept = sync_behaviors(running, &same, &reg);
    assert_eq!(kept.len(), 1);
    assert_eq!(kept[0].timer, 700);
    assert_eq!(kept[0].dir, FxVec { x: 1000, y: 0 });
    // Same name, different parameters: fresh zeroed state.
    let mut other_params = MovementParams::new();
    other_params.put(key("interval"), 900);
    let changed = vec![cropbots_core::behavior::SelectedAction {
        name: key("wander"),
        params: other_params,
    }];
    let fresh = sync_behaviors(kept, &changed, &reg);
    assert_eq!(fresh.len(), 1);
    assert_eq!(fresh[0].timer, 0);
    assert_eq!(fresh[0].dir, FxVec { x: 0, y: 0 });
}

#[test]
fn a_free_moving_seeker_integrates_its_velocity() {
    // A forced position target, a seek tree, no obstacles: one frame turns
    // the velocity toward the target at the base speed and integrates it.
    let mut db = EntityDatabase::empty();
    let mut def = simple_def("virat", EntityKind::Enemy, 0, StatBlock::new());
    def.behavior_tree = Some(BehaviorNode::Action {
        name: key("seek"),
        multiple: false,
        params: MovementParams::new(),
        extra: MovementParams::new(),
    });
    db.entities.push(def);
    let reg = MovementRegistry::new();
    let map = small_map();
    let mut ids = IdGen::new();
    let mut actor = db.spawn("virat", FxVec { x: 0, y: 0 }, &reg, &mut ids).unwrap();
    let mut ctx = empty_ctx();
    ctx.target = Some(Target::Position(FxVec { x: 100_000, y: 0 }));
    actor.update(17, &db, &mut ctx, &map, &reg);
    // Base speed 80 units per second, a sixtieth of a second: 1.36 units.
    assert_eq!(actor.vel, FxVec { x: 80_000, y: 0 });
    assert_eq!(actor.pos, FxVec { x: 1360, y: 0 });
    assert_eq!(actor.behaviors.len(), 1);
    assert_eq!(actor.behaviors[0].name, "seek");
}

#[test]
fn contact_damage_fires_once_per_cooldown_window() {
    // An actor with damage stat 5 and the player as its overlapping target
    // appends exactly one damage event on the first frame and none on the
    // two following frames at a sixtieth of a second each.
    let mut stats = StatBlock::new();
    stats.add(&key("damage"), 5000);
    let def = simple_def("virat", EntityKind::Enemy, DEF_FLAG_TARGET_PLAYER, stats);
    let mut db = EntityDatabase::empty();
    db.entities.push(def);
    let reg = MovementRegistry::new();
    let map = small_map();
    let mut ids = IdGen::new();
    let mut actor = db.spawn("virat", FxVec { x: 0, y: 0 }, &reg, &mut ids).unwrap();
    // The damage stat rode in through base stats; re-add since simple_def
    // consumed it: check it is there.
    assert_eq!(actor.stats.get(&key("damage"), 0), 5000);
    let mut ctx = empty_ctx();
    ctx.player = Some(PlayerTarget {
        pos: FxVec { x: 2000, y: 2000 },
        hitbox: FxRect { x: 2000, y: 2000, w: 10_000, h: 10_000 },
    });
    actor.update(17, &db, &mut ctx, &map, &reg);
    assert_eq!(ctx.damage_events.len(), 1);
    assert_eq!(ctx.damage_events[0].amount, 5000);
    assert!(matches!(ctx.damage_events[0].target, Target::Player(_)));
    assert_eq!(actor.contact_cooldown, CONTACT_COOLDOWN);
    // Two more frames well inside the 0.3 second window: nothing new.
    actor.update(17, &db, &mut ctx, &map, &reg);
    actor.update(17, &db, &mut ctx, &map, &reg);
    assert_eq!(ctx.damage_events.len(), 1);
    // Once the window passes, contact fires again.
    actor.update(300, &db, &mut ctx, &map, &reg);
    assert_eq!(ctx.damage_events.len(), 2);
}

#[test]
fn one_separation_pass_splits_the_push_evenly() {
    // Two actors with identical 10 by 10 hitboxes at x = 0 and x = 6: after
    // separation they may no longer penetrate, and the horizontal push is
    // symmetric.
    let def = simple_def("virat", EntityKind::Enemy, 0, StatBlock::new());
    let mut db = EntityDatabase::empty();
    db.entities.push(def);
    let reg = MovementRegistry::new();
    let map = small_map();
    let mut ids = IdGen::new();
    let a = Entity::spawn(&db, "virat", FxVec { x: 0, y: 0 }, &reg, &mut ids).unwrap();
    let b = Entity::spawn(&db, "virat", FxVec { x: 6000, y: 0 }, &reg, &mut ids).unwrap();
    let mut actors = vec![a, b];
    resolve_entity_overlaps(&mut actors, &db, &map);
    let ax = actors[0].instance.pos.x;
    let bx = actors[1].instance.pos.x;
    // The overlap was 4 units; each actor moves half plus the margin.
    assert_eq!(ax, -2001);
    assert_eq!(bx, 8001);
    // Equal and opposite displacement.
    assert_eq!(0 - ax, bx - 6000);
    // No residual penetration: a gap remains.
    assert!(ax + 10_000 <= bx);
    // Nothing but the positions changed.
    assert_eq!(actors[0].instance.vel, FxVec { x: 0, y: 0 });
    // A second run finds no overlap and moves nothing.
    resolve_entity_overlaps(&mut actors, &db, &map);
    assert_eq!(actors[0].instance.pos.x, ax);
    assert_eq!(actors[1].instance.pos.x, bx);
}

#[test]
fn damage_events_apply_to_the_matching_actor_and_the_dead_leave() {
    let def = simple_def("virat", EntityKind::Enemy, 0, StatBlock::new());
    let mut db = EntityDatabase::empty();
    db.entities.push(def);
    let reg = MovementRegistry::new();
    let mut ids = IdGen::new();
    let a = Entity::spawn(&db, "virat", FxVec { x: 0, y: 0 }, &reg, &mut ids).unwrap();
    let b = Entity::spawn(&db, "virat", FxVec { x: 50_000, y: 0 }, &reg, &mut ids).unwrap();
    let a_uid = a.instance.uid;
    let mut actors = vec![a, b];
    // Spawned health floors at one hit point.
    assert_eq!(actors[0].instance.hp, 1000);
    assert!(apply_damage_to_actor(&mut actors, a_uid, 400));
    assert_eq!(actors[0].instance.hp, 600);
    assert!(!apply_damage_to_actor(&mut actors, 999, 400)); // unknown id
    assert!(apply_damage_to_actor(&mut actors, a_uid, 9999));
    assert_eq!(actors[0].instance.hp, 0); // floored at zero
    remove_dead_actors(&mut actors);
    assert_eq!(actors.len(), 1);
    assert_ne!(actors[0].instance.uid, a_uid);
    // Snapshots report identity, kind, placement and liveness.
    let snaps = snapshot_actors(&actors, &db);
    assert_eq!(snaps.len(), 1);
    assert_eq!(snaps[0].id, actors[0].instance.uid);
    assert_eq!(snaps[0].kind, EntityKind::Enemy);
    assert!(snaps[0].alive);
    assert_eq!(snaps[0].hitbox, FxRect { x: 50_000, y: 0, w: 10_000, h: 10_000 });
}

#[test]
fn the_frame_accessors_report_placement_and_dashing() {
    let def = simple_def("virat", EntityKind::Enemy, 0, StatBlock::new());
    let mut db = EntityDatabase::empty();
    db.entities.push(def);
    let reg = MovementRegistry::new();
    let mut ids = IdGen::new();
    let mut e = Entity::spawn(&db, "virat", FxVec { x: 100, y: 200 }, &reg, &mut ids).unwrap();
    assert_eq!(e.position(), FxVec { x: 100, y: 200 });
    assert_eq!(e.hitbox(&db), FxRect { x: 100, y: 200, w: 10_000, h: 10_000 });
    assert!(!e.instance.is_dashing());
    e.instance.behaviors[0] = BehaviorRuntime {
        name: key("dash_at_target"),
        kind: MovementKind::Dash,
        params: MovementParams::new(),
        timer: 50,
        dir: FxVec { x: 1000, y: 0 },
        cooldown: 0,
    };
    assert!(e.instance.is_dashing());
    // Clamping pulls an actor back inside the world rectangle.
    e.instance.pos = FxVec { x: 5_000_000, y: -500_000 };
    e.clamp_to_map(&map_for_clamp(), &db);
    let border = map_for_clamp().get_border_hitbox();
    assert_eq!(e.instance.pos.x, border.x + border.w - 10_000);
    assert_eq!(e.instance.pos.y, border.y);
}

fn map_for_clamp() -> TerrainGrid {
    TerrainGrid::new(64, 64, 16_000, 100_000)
}
