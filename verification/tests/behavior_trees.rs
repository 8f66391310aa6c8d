//! Behavior-tree evaluation: selection, short-circuiting, side actions,
//! and the built-in range condition.

use cropbots_core::behavior::{BehaviorNode, CondEnv, select_actions, eval_behavior,
    eval_condition, action_params};
use cropbots_core::table::MovementParams;
use cropbots_core::geom::FxVec;

fn key(s: &str) -> String {
    s.to_owned()
}

fn action(name: &str, multiple: bool) -> BehaviorNode {
    BehaviorNode::Action {
        name: name.to_owned(),
        multiple,
        params: MovementParams::new(),
        extra: MovementParams::new(),
    }
}

fn condition(name: &str, value: Option<i64>) -> BehaviorNode {
    BehaviorNode::Condition { name: name.to_owned(), value }
}

fn env_without_target() -> CondEnv {
    CondEnv { pos: FxVec { x: 0, y: 0 }, target_pos: None, view_height: 300_000 }
}

fn env_with_target(x: i64, y: i64) -> CondEnv {
    CondEnv { pos: FxVec { x: 0, y: 0 }, target_pos: Some(FxVec { x, y }), view_height: 300_000 }
}

#[test]
fn a_sequence_stops_at_its_first_failing_child() {
    // The failing condition comes first, so the later action must not fire.
    let tree = BehaviorNode::Sequence {
        children: vec![condition("target_in_range", None), action("seek", false)],
    };
    let out = select_actions(&tree, &env_without_target());
    assert_eq!(out.len(), 0);
}

#[test]
fn a_sequence_lets_later_actions_override_earlier_ones() {
    let tree = BehaviorNode::Sequence {
        children: vec![action("wander", false), action("seek", false)],
    };
    let out = select_actions(&tree, &env_without_target());
    assert_eq!(out.len(), 1);
    assert_eq!(out[0].name, "seek");
}

#[test]
fn a_selector_takes_the_first_successful_action() {
    let tree = BehaviorNode::Selector {
        children: vec![
            condition("target_in_range", None), // fails: no target
            action("wander", false),
            action("seek", false),
        ],
    };
    let out = select_actions(&tree, &env_without_target());
    assert_eq!(out.len(), 1);
    assert_eq!(out[0].name, "wander");
}

#[test]
fn a_selector_collects_side_actions_from_every_successful_child() {
    let tree = BehaviorNode::Selector {
        children: vec![action("wander", false), action("dash_at_target", true)],
    };
    let out = select_actions(&tree, &env_without_target());
    // Primary is the first success; the always-firing dash comes alongside.
    assert_eq!(out.len(), 2);
    assert_eq!(out[0].name, "wander");
    assert_eq!(out[1].name, "dash_at_target");
}

#[test]
fn duplicate_side_actions_are_dropped() {
    // One action marked multiple: it is both the primary and a side action,
    // so deduplication keeps a single copy.
    let tree = BehaviorNode::Selector { children: vec![action("seek", true)] };
    let out = select_actions(&tree, &env_without_target());
    assert_eq!(out.len(), 1);
    assert_eq!(out[0].name, "seek");
}

#[test]
fn an_empty_selector_fails_and_an_empty_sequence_succeeds() {
    let selector = BehaviorNode::Selector { children: vec![] };
    let (_, _, sel_ok) = eval_behavior(&selector, &env_without_target());
    assert!(!sel_ok);
    let sequence = BehaviorNode::Sequence { children: vec![] };
    let (_, _, seq_ok) = eval_behavior(&sequence, &env_without_target());
    assert!(seq_ok);
}

#[test]
fn target_in_range_scales_with_the_view_height() {
    // Default range is one view height (300 world units here).
    assert!(eval_condition(&key("target_in_range"), None, &env_with_target(299_000, 0)));
    assert!(!eval_condition(&key("target_in_range"), None, &env_with_target(301_000, 0)));
    // An explicit factor of 0.5 halves the range.
    assert!(eval_condition(&key("target_in_range"), Some(500), &env_with_target(149_000, 0)));
    assert!(!eval_condition(&key("target_in_range"), Some(500), &env_with_target(151_000, 0)));
    // No resolved target: never in range.
    assert!(!eval_condition(&key("target_in_range"), None, &env_without_target()));
    // Unknown condition names are false.
    assert!(!eval_condition(&key("has_wings"), None, &env_with_target(0, 0)));
}

#[test]
fn passthrough_fields_override_and_alias_the_cooldown() {
    let mut params = MovementParams::new();
    params.put(key("dash_speed"), 900_000);
    params.put(key("cooldown"), 700);
    let mut extra = MovementParams::new();
    extra.put(key("dash_speed"), 800_000);
    let merged = action_params(&params, &extra);
    assert_eq!(merged.get_or(&key("dash_speed"), 0), 800_000); // extra wins
    assert_eq!(merged.get_or(&key("cooldown"), 0), 700);
    assert_eq!(merged.get_or(&key("dash_cooldown"), 0), 700); // aliased
}
