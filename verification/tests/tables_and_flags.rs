//! Stat tables, parameter tables, and definition flag bits.

use cropbots_core::table::{StatBlock, MovementParams};
use cropbots_core::fixed::FX_LIMIT;
use cropbots_core::flags::{EntityKind, TargetMask, target_mask_of, has_flag,
    DEF_FLAG_TARGET_PLAYER, DEF_FLAG_TARGET_NEAREST_ENTITY, DEF_FLAG_TARGET_NEAREST_ENEMY,
    DEF_FLAG_TARGET_NEAREST_FRIEND, DEF_FLAG_TARGET_NEAREST_MISC};
use cropbots_core::actor::{TraitDef, append_builtin_traits, trait_indices_have_flag,
    entity_flags_from_trait_indices};

fn key(s: &str) -> String {
    s.to_owned()
}

#[test]
fn stats_accumulate_per_key() {
    let mut s = StatBlock::new();
    s.add(&key("hp"), 5000);
    s.add(&key("hp"), 2000);
    s.add(&key("damage"), 1500);
    assert_eq!(s.get(&key("hp"), 0), 7000);
    assert_eq!(s.get(&key("damage"), 0), 1500);
    assert_eq!(s.get(&key("speed"), 80_000), 80_000);
}

#[test]
fn stat_addition_saturates_at_the_scalar_range() {
    let mut s = StatBlock::new();
    s.add(&key("hp"), FX_LIMIT);
    s.add(&key("hp"), FX_LIMIT);
    assert_eq!(s.get(&key("hp"), 0), FX_LIMIT);
}

#[test]
fn merging_adds_every_entry_of_the_other_table() {
    let mut a = StatBlock::new();
    a.add(&key("hp"), 1000);
    a.add(&key("speed"), 2000);
    let mut b = StatBlock::new();
    b.add(&key("hp"), 500);
    b.add(&key("damage"), 300);
    a.merge(&b);
    assert_eq!(a.get(&key("hp"), 0), 1500);
    assert_eq!(a.get(&key("speed"), 0), 2000);
    assert_eq!(a.get(&key("damage"), 0), 300);
}

#[test]
fn parameter_tables_compare_as_mappings() {
    let mut a = MovementParams::new();
    a.put(key("speed"), 100);
    a.put(key("interval"), 1500);
    let mut b = MovementParams::new();
    b.put(key("interval"), 1500);
    b.put(key("speed"), 100);
    assert!(a.same_as(&b)); // entry order does not matter
    b.put(key("speed"), 101);
    assert!(!a.same_as(&b));
    let mut c = MovementParams::new();
    c.put(key("speed"), 100);
    assert!(!a.same_as(&c)); // missing key
}

#[test]
fn put_default_keeps_an_existing_entry() {
    let mut p = MovementParams::new();
    p.put(key("cooldown"), 500);
    p.put_default(key("cooldown"), 900);
    assert_eq!(p.get_or(&key("cooldown"), 0), 500);
    p.put_default(key("dash_cooldown"), 900);
    assert_eq!(p.get_or(&key("dash_cooldown"), 0), 900);
}

fn one_flag_trait(id: &str, flags: &[&str]) -> TraitDef {
    TraitDef {
        id: id.to_owned(),
        stats: StatBlock::new(),
        flags: flags.iter().map(|f| (*f).to_owned()).collect(),
    }
}

#[test]
fn flags_pack_from_referenced_traits() {
    let traits = vec![
        one_flag_trait("hostile", &["target_player", "target_nearest_friend"]),
        one_flag_trait("ghostly", &["no_entity_collision"]),
    ];
    let idxs = vec![0usize];
    let f = entity_flags_from_trait_indices(&idxs, &traits);
    assert!(has_flag(f, DEF_FLAG_TARGET_PLAYER));
    assert!(has_flag(f, DEF_FLAG_TARGET_NEAREST_FRIEND));
    assert!(!has_flag(f, DEF_FLAG_TARGET_NEAREST_ENEMY));
    let both = vec![0usize, 1usize];
    let g = entity_flags_from_trait_indices(&both, &traits);
    assert!(has_flag(g, cropbots_core::flags::DEF_FLAG_NO_ENTITY_COLLISION));
}

#[test]
fn invalid_trait_indices_are_ignored() {
    let traits = vec![one_flag_trait("hostile", &["target_player"])];
    let idxs = vec![7usize];
    assert!(!trait_indices_have_flag(&idxs, &traits, "target_player"));
    let f = entity_flags_from_trait_indices(&idxs, &traits);
    assert_eq!(f, 0);
}

#[test]
fn builtin_traits_are_appended_once() {
    let mut traits = vec![one_flag_trait("target_player", &["target_player", "extra"])];
    append_builtin_traits(&mut traits);
    assert_eq!(traits.len(), 2); // target_player kept, no_map_collision added
    assert_eq!(traits[1].id, "no_map_collision");
    assert_eq!(traits[0].flags.len(), 2);
}

#[test]
fn specific_kind_bits_gate_candidates() {
    // A mask with a specific bit set never admits a kind whose bit is clear,
    // even with the any-entity bit also set.
    let f = DEF_FLAG_TARGET_NEAREST_ENTITY | DEF_FLAG_TARGET_NEAREST_ENEMY;
    let m: TargetMask = target_mask_of(f);
    assert!(m.eligible(EntityKind::Enemy));
    assert!(!m.eligible(EntityKind::Friend));
    assert!(!m.eligible(EntityKind::Misc));
    // With only the any-entity bit, every kind is eligible.
    let any_only = target_mask_of(DEF_FLAG_TARGET_NEAREST_ENTITY);
    assert!(any_only.eligible(EntityKind::Enemy));
    assert!(any_only.eligible(EntityKind::Friend));
    assert!(any_only.eligible(EntityKind::Misc));
    // Mask encoding packs one bit per flag.
    let all = target_mask_of(
        DEF_FLAG_TARGET_NEAREST_ENTITY | DEF_FLAG_TARGET_NEAREST_ENEMY
            | DEF_FLAG_TARGET_NEAREST_FRIEND | DEF_FLAG_TARGET_NEAREST_MISC,
    );
    assert_eq!(all.encode(), 15);
    assert_eq!(target_mask_of(0).encode(), 0);
}
