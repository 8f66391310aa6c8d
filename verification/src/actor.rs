//! Actor definitions, the definition store, and live actor instances:
//! spawning, the per-frame update, and contact damage.

use vstd::prelude::*;
use crate::geom::{FxVec, FxRect, vec_in_range, rect_in_range, world_rect, world_hitbox,
    rects_overlap};
use crate::fixed::{fx_in_range, fx_clamp, fx_mul_div, fx_sat_sub, fx_sat_add, fx_scale,
    clamp_i64, FX_LIMIT};
use crate::flags::{EntityKind, spec_target_mask, target_mask_of, flag_set, has_flag,
    DEF_FLAG_TARGET_PLAYER, DEF_FLAG_TARGET_NEAREST_ENTITY, DEF_FLAG_TARGET_NEAREST_ENEMY,
    DEF_FLAG_TARGET_NEAREST_FRIEND, DEF_FLAG_TARGET_NEAREST_MISC, DEF_FLAG_NO_ENTITY_COLLISION,
    DEF_FLAG_NO_ENEMY_COLLISION, DEF_FLAG_NO_FRIEND_COLLISION, DEF_FLAG_NO_MISC_COLLISION,
    DEF_FLAG_NO_PLAYER_COLLISION};
use crate::table::{StatBlock, MovementParams, value_of, stat_merged};
use crate::behavior::{BehaviorNode, SelectedAction, node_wf, CondEnv, select_actions,
    spec_select_actions};
use crate::movement::{MovementKind, MovementRegistry, BehaviorRuntime, spec_first_action,
    first_action_with_registry, sync_behaviors, spec_sync, filter_registered_or_idle,
    movement_idle, movement_wander, movement_seek, movement_flee, movement_dash_at_target,
    spec_scaled};
use crate::target::{Target, EntityTarget, EntityContext, DamageEvent, target_wf,
    spec_resolve_target, spec_find_live, ID_LIMIT};
use crate::terrain::TerrainGrid;
use crate::collision::{Axis, resolve_collisions_axis, collision_radius,
    collect_dynamic_collision_hitboxes, colliders_wf, spec_dynamic_obstacles,
    spec_collision_radius, spec_resolve_axis_x, spec_resolve_axis_y};

verus! {

/// Seconds (in thousandths) between two contact-damage hits of one actor.
pub const CONTACT_COOLDOWN: i64 = 300;

/// An authored trait: named stat contributions and string flags inherited
/// by every actor definition that references it.
pub struct TraitDef {
    pub id: String,
    pub stats: StatBlock,
    pub flags: Vec<String>,
}

impl TraitDef {
    /// Well-formed trait.
    pub open spec fn wf(self) -> bool {
        self.stats.wf()
    }

    /// Whether this trait carries flag `f`.
    pub open spec fn spec_has_flag(self, f: Seq<char>) -> bool {
        exists|j: int| 0 <= j < self.flags@.len() && (#[trigger] self.flags@[j])@ == f
    }
}

/// A named, reusable behavior tree.
pub struct BehaviorDef {
    pub id: String,
    pub tree: BehaviorNode,
}

/// An immutable actor template: identity, kind, hitbox, traits, an optional
/// behavior tree, base stats, base speed, terrain-collision flag, and the
/// packed targeting/collision-exemption flag bits.
pub struct EntityDef {
    pub id: String,
    pub name: String,
    pub kind: EntityKind,
    pub hitbox: FxRect,
    pub traits: Vec<usize>,
    pub behavior_tree: Option<BehaviorNode>,
    pub base_stats: StatBlock,
    pub speed: i64,
    pub collides: bool,
    pub flags: u16,
}

impl EntityDef {
    /// Well-formed definition against a store with `n_traits` traits.
    pub open spec fn wf(self, n_traits: int) -> bool {
        &&& rect_in_range(self.hitbox)
        &&& self.base_stats.wf()
        &&& fx_in_range(self.speed as int)
        &&& forall|i: int| 0 <= i < self.traits@.len() ==> (#[trigger] self.traits@[i]) < n_traits
        &&& (self.behavior_tree matches Some(t) ==> node_wf(t))
    }

    /// Whether flag bit `bit` is set.
    pub fn has_flag(&self, bit: u16) -> (r: bool)
        ensures
            r == flag_set(self.flags, bit),
    {
        (self.flags & bit) != 0
    }

    /// The definition's hitbox placed at a world position.
    pub fn world_hitbox(&self, pos: FxVec) -> (r: FxRect)
        requires
            rect_in_range(self.hitbox),
            vec_in_range(pos),
        ensures
            r == world_rect(self.hitbox, pos),
    {
        world_hitbox(self.hitbox, pos)
    }
}

/// Whether any of the referenced traits (invalid indices ignored) carries
/// flag `f`.
pub open spec fn spec_indices_have_flag(
    idxs: Seq<usize>,
    traits: Seq<TraitDef>,
    f: Seq<char>,
) -> bool {
    exists|i: int|
        0 <= i < idxs.len() && idxs[i] < traits.len() && (#[trigger] traits[idxs[i] as int]).spec_has_flag(
            f,
        )
}

/// Whether any referenced trait carries flag `flag` (see
/// [`spec_indices_have_flag`]).
pub fn trait_indices_have_flag(
    trait_indices: &Vec<usize>,
    traits: &Vec<TraitDef>,
    flag: &str,
) -> (r: bool)
    ensures
        r == spec_indices_have_flag(trait_indices@, traits@, flag@),
{
    let key = flag.to_owned();
    let mut i: usize = 0;
    while i < trait_indices.len()
        invariant
            i <= trait_indices@.len(),
            key@ == flag@,
            forall|a: int|
                0 <= a < i ==> !(trait_indices@[a] < traits@.len()
                    && (#[trigger] traits@[trait_indices@[a] as int]).spec_has_flag(flag@)),
        decreases trait_indices@.len() - i,
    {
        let idx = trait_indices[i];
        if idx < traits.len() {
            let t = &traits[idx];
            let mut j: usize = 0;
            while j < t.flags.len()
                invariant
                    j <= t.flags@.len(),
                    key@ == flag@,
                    0 <= i < trait_indices@.len(),
                    idx == trait_indices@[i as int],
                    idx < traits@.len(),
                    *t == traits@[idx as int],
                    forall|b: int| 0 <= b < j ==> (#[trigger] t.flags@[b])@ != flag@,
                decreases t.flags@.len() - j,
            {
                if t.flags[j] == key {
                    proof {
                        assert(t.flags@[j as int]@ == flag@);
                        assert((*t).spec_has_flag(flag@));
                        assert(*t == traits@[idx as int]);
                        assert(traits@[idx as int].spec_has_flag(flag@));
                        assert(0 <= i < trait_indices@.len() && trait_indices@[i as int]
                            < traits@.len() && traits@[
                            trait_indices@[i as int] as int
                        ].spec_has_flag(flag@));
                    }
                    return true;
                }
                j = j + 1;
            }
        }
        i = i + 1;
    }
    proof {
        if spec_indices_have_flag(trait_indices@, traits@, flag@) {
            let w = choose|w: int|
                0 <= w < trait_indices@.len() && trait_indices@[w] < traits@.len() && traits@[
                    trait_indices@[w] as int
                ].spec_has_flag(flag@);
            assert(!(trait_indices@[w] < traits@.len() && traits@[
                trait_indices@[w] as int
            ].spec_has_flag(flag@)));
        }
    }
    false
}

/// Pack the ten targeting and collision-exemption flag bits from the
/// authored trait flags of an actor definition. Each bit is set exactly
/// when some referenced trait carries the corresponding flag name.
pub fn entity_flags_from_trait_indices(trait_indices: &Vec<usize>, traits: &Vec<TraitDef>) -> (r:
    u16)
    ensures
        flag_set(r, DEF_FLAG_TARGET_PLAYER) == spec_indices_have_flag(
            trait_indices@,
            traits@,
            "target_player"@,
        ),
        flag_set(r, DEF_FLAG_TARGET_NEAREST_ENTITY) == spec_indices_have_flag(
            trait_indices@,
            traits@,
            "target_nearest_entity"@,
        ),
        flag_set(r, DEF_FLAG_TARGET_NEAREST_ENEMY) == spec_indices_have_flag(
            trait_indices@,
            traits@,
            "target_nearest_enemy"@,
        ),
        flag_set(r, DEF_FLAG_TARGET_NEAREST_FRIEND) == spec_indices_have_flag(
            trait_indices@,
            traits@,
            "target_nearest_friend"@,
        ),
        flag_set(r, DEF_FLAG_TARGET_NEAREST_MISC) == spec_indices_have_flag(
            trait_indices@,
            traits@,
            "target_nearest_misc"@,
        ),
        flag_set(r, DEF_FLAG_NO_ENTITY_COLLISION) == spec_indices_have_flag(
            trait_indices@,
            traits@,
            "no_entity_collision"@,
        ),
        flag_set(r, DEF_FLAG_NO_ENEMY_COLLISION) == spec_indices_have_flag(
            trait_indices@,
            traits@,
            "no_enemy_collision"@,
        ),
        flag_set(r, DEF_FLAG_NO_FRIEND_COLLISION) == spec_indices_have_flag(
            trait_indices@,
            traits@,
            "no_friend_collision"@,
        ),
        flag_set(r, DEF_FLAG_NO_MISC_COLLISION) == spec_indices_have_flag(
            trait_indices@,
            traits@,
            "no_misc_collision"@,
        ),
        flag_set(r, DEF_FLAG_NO_PLAYER_COLLISION) == spec_indices_have_flag(
            trait_indices@,
            traits@,
            "no_player_collision"@,
        ),
        r < 1024,
{
    let v0: u16 = if trait_indices_have_flag(trait_indices, traits, "target_player") {
        1
    } else {
        0
    };
    let v1: u16 = if trait_indices_have_flag(trait_indices, traits, "target_nearest_entity") {
        2
    } else {
        0
    };
    let v2: u16 = if trait_indices_have_flag(trait_indices, traits, "target_nearest_enemy") {
        4
    } else {
        0
    };
    let v3: u16 = if trait_indices_have_flag(trait_indices, traits, "target_nearest_friend") {
        8
    } else {
        0
    };
    let v4: u16 = if trait_indices_have_flag(trait_indices, traits, "target_nearest_misc") {
        16
    } else {
        0
    };
    let v5: u16 = if trait_indices_have_flag(trait_indices, traits, "no_entity_collision") {
        32
    } else {
        0
    };
    let v6: u16 = if trait_indices_have_flag(trait_indices, traits, "no_enemy_collision") {
        64
    } else {
        0
    };
    let v7: u16 = if trait_indices_have_flag(trait_indices, traits, "no_friend_collision") {
        128
    } else {
        0
    };
    let v8: u16 = if trait_indices_have_flag(trait_indices, traits, "no_misc_collision") {
        256
    } else {
        0
    };
    let v9: u16 = if trait_indices_have_flag(trait_indices, traits, "no_player_collision") {
        512
    } else {
        0
    };
    let r: u16 = v0 | v1 | v2 | v3 | v4 | v5 | v6 | v7 | v8 | v9;
    proof {
        assert((1u16 << 0) == 1u16 && (1u16 << 1) == 2u16 && (1u16 << 2) == 4u16 && (1u16 << 3)
            == 8u16 && (1u16 << 4) == 16u16 && (1u16 << 5) == 32u16 && (1u16 << 6) == 64u16 && (
        1u16 << 7) == 128u16 && (1u16 << 8) == 256u16 && (1u16 << 9) == 512u16) by (bit_vector);
        assert(((r & 1u16 != 0) == (v0 == 1)) && ((r & 2u16 != 0) == (v1 == 2)) && ((r & 4u16
            != 0) == (v2 == 4)) && ((r & 8u16 != 0) == (v3 == 8)) && ((r & 16u16 != 0) == (v4
            == 16)) && ((r & 32u16 != 0) == (v5 == 32)) && ((r & 64u16 != 0) == (v6 == 64)) && ((
        r & 128u16 != 0) == (v7 == 128)) && ((r & 256u16 != 0) == (v8 == 256)) && ((r & 512u16
            != 0) == (v9 == 512)) && r < 1024u16) by (bit_vector)
            requires
                (v0 == 0 || v0 == 1) && (v1 == 0 || v1 == 2) && (v2 == 0 || v2 == 4) && (v3 == 0
                    || v3 == 8) && (v4 == 0 || v4 == 16) && (v5 == 0 || v5 == 32) && (v6 == 0
                    || v6 == 64) && (v7 == 0 || v7 == 128) && (v8 == 0 || v8 == 256) && (v9 == 0
                    || v9 == 512) && r == (v0 | v1 | v2 | v3 | v4 | v5 | v6 | v7 | v8 | v9),
        ;
    }
    r
}

/// Whether some trait in the list carries string id `id`.
pub open spec fn spec_has_trait_id(s: Seq<TraitDef>, id: Seq<char>) -> bool {
    exists|i: int| 0 <= i < s.len() && (#[trigger] s[i]).id@ == id
}

/// Append the built-in traits that authored data may reference without
/// defining: `target_player` and `no_map_collision`, each carrying its own
/// name as a flag, with empty stats. Traits already present keep their
/// definition; afterwards a trait of each built-in id exists.
pub fn append_builtin_traits(traits: &mut Vec<TraitDef>)
    requires
        forall|i: int| 0 <= i < old(traits)@.len() ==> (#[trigger] old(traits)@[i]).wf(),
    ensures
        forall|i: int| 0 <= i < final(traits)@.len() ==> (#[trigger] final(traits)@[i]).wf(),
        final(traits)@.len() >= old(traits)@.len(),
        forall|i: int|
            0 <= i < old(traits)@.len() ==> final(traits)@[i] == old(traits)@[i],
        spec_has_trait_id(final(traits)@, "target_player"@),
        spec_has_trait_id(final(traits)@, "no_map_collision"@),
        !spec_has_trait_id(old(traits)@, "target_player"@) ==> spec_has_one_flag_trait(
            final(traits)@,
            "target_player"@,
        ),
        !spec_has_trait_id(old(traits)@, "no_map_collision"@) ==> spec_has_one_flag_trait(
            final(traits)@,
            "no_map_collision"@,
        ),
{
    push_trait_if_absent(traits, "target_player");
    let ghost mid = traits@;
    push_trait_if_absent(traits, "no_map_collision");
    proof {
        let w = choose|i: int| 0 <= i < mid.len() && mid[i].id@ == "target_player"@;
        assert(traits@[w].id@ == "target_player"@);
        if !spec_has_trait_id(old(traits)@, "target_player"@) {
            let v = choose|i: int|
                0 <= i < mid.len() && mid[i].id@ == "target_player"@ && mid[i].stats.view()
                    =~= Seq::<(Seq<char>, int)>::empty() && mid[i].flags@.len() == 1
                    && mid[i].flags@[0]@ == "target_player"@;
            assert(traits@[v] == mid[v]);
        }
    }
}

/// Some trait in the list has id `id`, empty stats, and `id` as its one
/// flag: the shape of a freshly appended built-in trait.
pub open spec fn spec_has_one_flag_trait(s: Seq<TraitDef>, id: Seq<char>) -> bool {
    exists|i: int|
        0 <= i < s.len() && (#[trigger] s[i]).id@ == id && s[i].stats.view() =~= Seq::<
            (Seq<char>, int),
        >::empty() && s[i].flags@.len() == 1 && s[i].flags@[0]@ == id
}

/// Append a one-flag trait named `id` unless a trait of that id exists.
fn push_trait_if_absent(traits: &mut Vec<TraitDef>, id: &str)
    requires
        forall|i: int| 0 <= i < old(traits)@.len() ==> (#[trigger] old(traits)@[i]).wf(),
    ensures
        forall|i: int| 0 <= i < final(traits)@.len() ==> (#[trigger] final(traits)@[i]).wf(),
        final(traits)@.len() >= old(traits)@.len(),
        forall|i: int|
            0 <= i < old(traits)@.len() ==> final(traits)@[i] == old(traits)@[i],
        spec_has_trait_id(final(traits)@, id@),
        spec_has_trait_id(old(traits)@, id@) ==> final(traits)@ == old(traits)@,
        !spec_has_trait_id(old(traits)@, id@) ==> final(traits)@.len() == old(traits)@.len() + 1
            && spec_has_one_flag_trait(final(traits)@, id@),
{
    let key = id.to_owned();
    let mut i: usize = 0;
    while i < traits.len()
        invariant
            i <= traits@.len(),
            key@ == id@,
            traits@ == old(traits)@,
            forall|k: int| 0 <= k < i ==> (#[trigger] traits@[k]).id@ != id@,
            forall|k: int| 0 <= k < traits@.len() ==> (#[trigger] traits@[k]).wf(),
        decreases traits@.len() - i,
    {
        if traits[i].id == key {
            proof {
                assert(traits@[i as int].id@ == id@);
            }
            return ;
        }
        i = i + 1;
    }
    proof {
        if spec_has_trait_id(traits@, id@) {
            let w = choose|k: int| 0 <= k < traits@.len() && traits@[k].id@ == id@;
            assert(traits@[w].id@ != id@);
        }
    }
    let mut flags: Vec<String> = Vec::new();
    flags.push(id.to_owned());
    let t = TraitDef { id: key, stats: StatBlock::new(), flags };
    let ghost pre = traits@;
    traits.push(t);
    proof {
        let n = pre.len() as int;
        assert(traits@[n].id@ == id@);
        assert(traits@[n].stats.view() =~= Seq::<(Seq<char>, int)>::empty());
        assert(traits@[n].flags@.len() == 1 && traits@[n].flags@[0]@ == id@);
    }
}

/// A monotonic id source owned by the simulation: ids start at one, are
/// handed out in order, and are never reused.
pub struct IdGen {
    next: u64,
}

impl IdGen {
    /// The id the next spawn will receive.
    pub closed spec fn spec_next(self) -> u64 {
        self.next
    }

    /// A fresh generator, starting at id one.
    pub fn new() -> (r: IdGen)
        ensures
            r.spec_next() == 1,
    {
        IdGen { next: 1 }
    }

    /// Hand out the next id.
    pub fn fresh(&mut self) -> (r: u64)
        requires
            old(self).spec_next() < ID_LIMIT,
        ensures
            r == old(self).spec_next(),
            final(self).spec_next() == old(self).spec_next() + 1,
            r < ID_LIMIT,
    {
        let r = self.next;
        self.next = self.next + 1;
        r
    }
}

/// The immutable definition store: traits, named behavior trees, and actor
/// templates, each addressable by index and by string id.
pub struct EntityDatabase {
    pub traits: Vec<TraitDef>,
    pub behaviors: Vec<BehaviorDef>,
    pub entities: Vec<EntityDef>,
}

impl EntityDatabase {
    /// Well-formed store.
    pub open spec fn wf(self) -> bool {
        &&& forall|i: int| 0 <= i < self.traits@.len() ==> (#[trigger] self.traits@[i]).wf()
        &&& forall|i: int|
            0 <= i < self.entities@.len() ==> (#[trigger] self.entities@[i]).wf(
                self.traits@.len() as int,
            )
        &&& forall|i: int|
            0 <= i < self.behaviors@.len() ==> node_wf((#[trigger] self.behaviors@[i]).tree)
    }

    /// A store with nothing in it.
    pub fn empty() -> (r: EntityDatabase)
        ensures
            r.wf(),
            r.traits@.len() == 0,
            r.behaviors@.len() == 0,
            r.entities@.len() == 0,
    {
        EntityDatabase { traits: Vec::new(), behaviors: Vec::new(), entities: Vec::new() }
    }

    /// The first index whose definition carries string id `k`, if any.
    pub open spec fn spec_entity_id(self, k: Seq<char>, i: int) -> Option<usize>
        decreases self.entities@.len() - i,
    {
        if i < 0 || i >= self.entities@.len() {
            None
        } else if self.entities@[i].id@ == k {
            Some(i as usize)
        } else {
            self.spec_entity_id(k, i + 1)
        }
    }

    /// Look up a definition index by string id; `None` for an unknown id.
    pub fn entity_id(&self, id: &str) -> (r: Option<usize>)
        ensures
            r == self.spec_entity_id(id@, 0),
            r matches Some(i) ==> i < self.entities@.len() && self.entities@[i as int].id@ == id@,
    {
        let key = id.to_owned();
        let mut i: usize = 0;
        while i < self.entities.len()
            invariant
                i <= self.entities@.len(),
                key@ == id@,
                self.spec_entity_id(id@, i as int) == self.spec_entity_id(id@, 0),
            decreases self.entities@.len() - i,
        {
            if self.entities[i].id == key {
                return Some(i);
            }
            i = i + 1;
        }
        None
    }
}

/// The merged stat table of a definition: its base stats, with each
/// referenced trait's contributions accumulated in order.
pub open spec fn spec_merged_stats(
    base: Seq<(Seq<char>, int)>,
    idxs: Seq<usize>,
    traits: Seq<TraitDef>,
    i: int,
) -> Seq<(Seq<char>, int)>
    decreases idxs.len() - i,
{
    if i < 0 || i >= idxs.len() {
        base
    } else {
        spec_merged_stats(
            stat_merged(base, traits[idxs[i] as int].stats.view()),
            idxs,
            traits,
            i + 1,
        )
    }
}

/// A live actor: identity, motion state, active behaviors, aggregated
/// stats, health, scratch buffers for collision gathering, and this frame's
/// resolved target.
pub struct EntityInstance {
    pub uid: u64,
    pub def: usize,
    pub pos: FxVec,
    pub vel: FxVec,
    pub speed: i64,
    pub behaviors: Vec<BehaviorRuntime>,
    pub stats: StatBlock,
    pub hp: i64,
    pub max_hp: i64,
    pub collision_scratch: Vec<FxRect>,
    pub dynamic_collision_scratch: Vec<FxRect>,
    pub current_target: Option<Target>,
    pub contact_cooldown: i64,
}

impl EntityInstance {
    /// Well-formed instance.
    pub open spec fn wf(self) -> bool {
        &&& vec_in_range(self.pos)
        &&& vec_in_range(self.vel)
        &&& fx_in_range(self.speed as int)
        &&& fx_in_range(self.hp as int)
        &&& fx_in_range(self.max_hp as int)
        &&& 0 <= self.contact_cooldown <= FX_LIMIT
        &&& self.uid < ID_LIMIT
        &&& self.stats.wf()
        &&& forall|i: int| 0 <= i < self.behaviors@.len() ==> (#[trigger] self.behaviors@[i]).wf()
        &&& (self.current_target matches Some(t) ==> target_wf(t))
    }

    /// Subtract damage from health, floored at zero; non-positive amounts
    /// do nothing.
    pub fn apply_damage(&mut self, amount: i64)
        requires
            old(self).wf(),
            fx_in_range(amount as int),
        ensures
            final(self).wf(),
            amount <= 0 ==> *final(self) == *old(self),
            amount > 0 ==> final(self).hp == (if old(self).hp - amount >= 0 {
                old(self).hp - amount
            } else {
                0int
            }),
            final(self).same_except_pos_and_hp(*old(self)),
            final(self).pos == old(self).pos,
    {
        if amount <= 0 {
            return ;
        }
        let h = fx_sat_sub(self.hp, amount);
        self.hp = if h >= 0 {
            h
        } else {
            0
        };
    }

    /// Whether the actor is mid-dash: its first behavior is one of the dash
    /// actions with a running timer; the frame driver uses this to draw
    /// trail effects.
    pub fn is_dashing(&self) -> (r: bool)
        ensures
            r == (self.behaviors@.len() > 0 && (self.behaviors@[0].name@ == "dash_at_target"@
                || self.behaviors@[0].name@ == "virabird_ai"@) && self.behaviors@[0].timer > 0),
    {
        if self.behaviors.len() == 0 {
            return false;
        }
        let dash_name = "dash_at_target".to_owned();
        let vira_name = "virabird_ai".to_owned();
        let b = &self.behaviors[0];
        (b.name == dash_name || b.name == vira_name) && b.timer > 0
    }

    /// The actor's hitbox placed at its current position.
    pub fn hitbox(&self, db: &EntityDatabase) -> (r: FxRect)
        requires
            db.wf(),
            self.wf(),
            self.def < db.entities@.len(),
        ensures
            r == world_rect(db.entities@[self.def as int].hitbox, self.pos),
    {
        db.entities[self.def].world_hitbox(self.pos)
    }
}

/// The cooldown tick applied at the start of each update: while positive,
/// count down by `dt`, never below zero.
pub open spec fn spec_tick_cooldown(cc: i64, dt: i64) -> int {
    if cc > 0 {
        if fx_clamp(cc - dt) >= 0 {
            fx_clamp(cc - dt)
        } else {
            0int
        }
    } else {
        cc as int
    }
}

/// Contact damage is gated by the cooldown: once a hit has armed the
/// cooldown, an overlap check on the following update within the cooldown
/// window (0.3 simulated seconds) fires nothing, whatever the damage stat,
/// target, flags, frame context or hitboxes look like — so two overlap
/// checks within the window produce at most one damage event.
pub proof fn lemma_contact_damage_gated(
    dt: i64,
    damage: int,
    target: Option<Target>,
    flags: u16,
    ctx: EntityContext,
    own_hb: FxRect,
)
    requires
        0 <= dt < CONTACT_COOLDOWN,
    ensures
        spec_tick_cooldown(CONTACT_COOLDOWN, dt) > 0,
        !spec_contact_fires(
            damage,
            spec_tick_cooldown(CONTACT_COOLDOWN, dt) as i64,
            target,
            flags,
            ctx,
            own_hb,
        ),
{
}

/// The world hitbox of the current target for contact purposes, when every
/// gate passes: a bare position never qualifies; the player qualifies only
/// under the target-player flag and with a live player in the frame; an
/// actor target is re-checked against the live snapshot (first live entry
/// of that id) and the kind-eligibility rule.
pub open spec fn spec_contact_hitbox(
    target: Target,
    flags: u16,
    ctx: EntityContext,
) -> Option<FxRect> {
    match target {
        Target::Position(_) => None,
        Target::Player(_) => {
            if flag_set(flags, DEF_FLAG_TARGET_PLAYER) {
                match ctx.player {
                    Some(p) => Some(p.hitbox),
                    None => None,
                }
            } else {
                None
            }
        },
        Target::Entity(t) => {
            match spec_find_live(ctx.entities@, 0, t.id, spec_target_mask(flags)) {
                Some(live) => Some(live.hitbox),
                None => None,
            }
        },
    }
}

/// Whether a contact hit fires: positive damage, expired cooldown, a
/// qualifying target hitbox, and overlap with the actor's own world hitbox.
pub open spec fn spec_contact_fires(
    damage: int,
    cooldown: i64,
    target: Option<Target>,
    flags: u16,
    ctx: EntityContext,
    own_hb: FxRect,
) -> bool {
    &&& damage > 0
    &&& cooldown <= 0
    &&& target is Some
    &&& spec_contact_hitbox(target->0, flags, ctx) is Some
    &&& rects_overlap(own_hb, spec_contact_hitbox(target->0, flags, ctx)->0)
}

/// The contact-firing predicate reads only the player snapshot and the
/// actor snapshots of the frame context; caches and accumulated events do
/// not enter it.
pub proof fn lemma_contact_fires_same_frame(
    damage: int,
    cooldown: i64,
    target: Option<Target>,
    flags: u16,
    a: EntityContext,
    b: EntityContext,
    own_hb: FxRect,
)
    requires
        a.player == b.player,
        a.entities@ == b.entities@,
    ensures
        spec_contact_fires(damage, cooldown, target, flags, a, own_hb) == spec_contact_fires(
            damage,
            cooldown,
            target,
            flags,
            b,
            own_hb,
        ),
{
    match target {
        Some(t) => {
            assert(spec_contact_hitbox(t, flags, a) == spec_contact_hitbox(t, flags, b));
        },
        None => {},
    }
}

impl EntityInstance {
    /// After movement, deal contact damage: when the actor has a positive
    /// damage stat, its contact cooldown has expired, and its current
    /// target qualifies and overlaps its own hitbox, append one deferred
    /// damage event and arm the cooldown; otherwise change nothing.
    fn apply_contact_damage(&mut self, ctx: &mut EntityContext, db: &EntityDatabase)
        requires
            old(self).wf(),
            old(ctx).wf(),
            db.wf(),
            old(self).def < db.entities@.len(),
        ensures
            final(self).wf(),
            final(ctx).wf(),
            ({
                let flags = db.entities@[old(self).def as int].flags;
                let own_hb = world_rect(
                    db.entities@[old(self).def as int].hitbox,
                    old(self).pos,
                );
                let dmg = value_of(old(self).stats.view(), "damage"@, 0);
                let fires = spec_contact_fires(
                    dmg,
                    old(self).contact_cooldown,
                    old(self).current_target,
                    flags,
                    *old(ctx),
                    own_hb,
                );
                &&& (fires ==> final(ctx).damage_events@ == old(ctx).damage_events@.push(
                    DamageEvent { amount: dmg as i64, target: old(self).current_target->0 },
                ) && final(self).contact_cooldown == CONTACT_COOLDOWN)
                &&& (!fires ==> final(ctx).damage_events@ == old(ctx).damage_events@
                    && final(self).contact_cooldown == old(self).contact_cooldown)
                &&& final(self).pos == old(self).pos
                &&& final(self).vel == old(self).vel
                &&& final(self).hp == old(self).hp
                &&& final(self).uid == old(self).uid
                &&& final(self).def == old(self).def
                &&& final(self).stats == old(self).stats
                &&& final(self).behaviors@ == old(self).behaviors@
                &&& final(self).current_target == old(self).current_target
                &&& final(self).max_hp == old(self).max_hp
                &&& final(self).speed == old(self).speed
                &&& final(ctx).player == old(ctx).player
                &&& final(ctx).target == old(ctx).target
                &&& final(ctx).entities@ == old(ctx).entities@
                &&& final(ctx).view_height == old(ctx).view_height
                &&& final(ctx).target_cache.view() == old(ctx).target_cache.view()
            }),
    {
        let damage_key = "damage".to_owned();
        let damage = self.stats.get(&damage_key, 0);
        if damage <= 0 || self.contact_cooldown > 0 {
            return ;
        }
        let target = match self.current_target {
            Some(t) => t,
            None => {
                return ;
            },
        };
        let def = &db.entities[self.def];
        let target_hitbox: FxRect = match target {
            Target::Position(_) => {
                return ;
            },
            Target::Player(_) => {
                if !has_flag(def.flags, DEF_FLAG_TARGET_PLAYER) {
                    return ;
                }
                match ctx.player {
                    Some(p) => p.hitbox,
                    None => {
                        return ;
                    },
                }
            },
            Target::Entity(t) => {
                let m = target_mask_of(def.flags);
                match crate::target::find_live_in(&ctx.entities, t.id, m) {
                    Some(live) => live.hitbox,
                    None => {
                        return ;
                    },
                }
            },
        };
        let own = def.world_hitbox(self.pos);
        proof {
            assert(crate::geom::rect_wide(target_hitbox));
        }
        if own.overlaps(&target_hitbox) {
            ctx.damage_events.push(DamageEvent { amount: damage, target });
            self.contact_cooldown = CONTACT_COOLDOWN;
        }
    }
}

impl EntityDatabase {
    /// Spawn an actor from the template with string id `id` at `pos`:
    /// aggregate its stats, derive health and speed, and start its first
    /// registered behavior (idle when the tree offers none). An unknown id
    /// creates nothing and consumes no actor id.
    pub fn spawn(
        &self,
        id: &str,
        pos: FxVec,
        registry: &MovementRegistry,
        ids: &mut IdGen,
    ) -> (r: Option<EntityInstance>)
        requires
            self.wf(),
            vec_in_range(pos),
            registry.wf(),
            old(ids).spec_next() < ID_LIMIT,
        ensures
            (r is Some) == (self.spec_entity_id(id@, 0) is Some),
            r is None ==> *final(ids) == *old(ids),
            r matches Some(inst) ==> ({
                let def_idx = self.spec_entity_id(id@, 0)->0;
                let def = self.entities@[def_idx as int];
                let stats = spec_merged_stats(def.base_stats.view(), def.traits@, self.traits@, 0);
                let hp0 = value_of(stats, "hp"@, 1000);
                let hp = if hp0 >= 1000 {
                    hp0
                } else {
                    1000int
                };
                let sp0 = value_of(stats, "speed"@, def.speed as int);
                let sp = if sp0 >= 1000 {
                    sp0
                } else {
                    1000int
                };
                let action = match spec_first_action(
                    def.behavior_tree->0,
                    registry.view(),
                ) {
                    Some(n) => n,
                    None => "idle"@,
                };
                &&& inst.wf()
                &&& inst.uid == old(ids).spec_next()
                &&& final(ids).spec_next() == old(ids).spec_next() + 1
                &&& inst.def == def_idx
                &&& inst.pos == pos
                &&& inst.vel == (FxVec { x: 0, y: 0 })
                &&& inst.stats.view() == stats
                &&& inst.hp == hp
                &&& inst.max_hp == hp
                &&& inst.speed == sp
                &&& inst.behaviors@.len() == 1
                &&& inst.behaviors@[0].name@ == (if def.behavior_tree is Some {
                    action
                } else {
                    "idle"@
                })
                &&& inst.behaviors@[0].timer == 0
                &&& inst.behaviors@[0].cooldown == 0
                &&& inst.behaviors@[0].dir == (FxVec { x: 0, y: 0 })
                &&& inst.behaviors@[0].params.view() == Seq::<(Seq<char>, int)>::empty()
                &&& inst.current_target is None
                &&& inst.contact_cooldown == 0
            }),
    {
        let index = match self.entity_id(id) {
            Some(i) => i,
            None => {
                return None;
            },
        };
        let def = &self.entities[index];
        let ghost idxs = def.traits@;
        let mut stats = def.base_stats.duplicate();
        let mut i: usize = 0;
        while i < def.traits.len()
            invariant
                self.wf(),
                index < self.entities@.len(),
                *def == self.entities@[index as int],
                idxs == def.traits@,
                i <= idxs.len(),
                stats.wf(),
                spec_merged_stats(stats.view(), idxs, self.traits@, i as int)
                    == spec_merged_stats(
                    self.entities@[index as int].base_stats.view(),
                    idxs,
                    self.traits@,
                    0,
                ),
            decreases idxs.len() - i,
        {
            let trait_idx = def.traits[i];
            stats.merge(&self.traits[trait_idx].stats);
            i = i + 1;
        }
        let hp_key = "hp".to_owned();
        let speed_key = "speed".to_owned();
        let hp0 = stats.get(&hp_key, 1000);
        let max_hp = if hp0 >= 1000 {
            hp0
        } else {
            1000
        };
        let sp0 = stats.get(&speed_key, def.speed);
        let speed = if sp0 >= 1000 {
            sp0
        } else {
            1000
        };
        let mut action: String = match &def.behavior_tree {
            Some(tree) => {
                proof {
                    crate::movement::lemma_first_action_registered(*tree, registry.view());
                }
                match first_action_with_registry(tree, registry) {
                    Some(n) => n,
                    None => "idle".to_owned(),
                }
            },
            None => "idle".to_owned(),
        };
        if !registry.has(&action) {
            action = "idle".to_owned();
        }
        let kind = registry.resolve(&action);
        let mut behaviors: Vec<BehaviorRuntime> = Vec::new();
        behaviors.push(
            BehaviorRuntime {
                name: action,
                kind,
                params: MovementParams::new(),
                timer: 0,
                dir: FxVec { x: 0, y: 0 },
                cooldown: 0,
            },
        );
        let uid = ids.fresh();
        Some(
            EntityInstance {
                uid,
                def: index,
                pos,
                vel: FxVec { x: 0, y: 0 },
                speed,
                behaviors,
                stats,
                hp: max_hp,
                max_hp,
                collision_scratch: Vec::new(),
                dynamic_collision_scratch: Vec::new(),
                current_target: None,
                contact_cooldown: 0,
            },
        )
    }
}

/// The largest speed the velocity may reach after behaviors ran: the
/// actor's own speed (at least one world unit per second), raised to any
/// active dash behavior's dash-speed parameter.
pub open spec fn spec_max_speed(bs: Seq<BehaviorRuntime>, i: int, cur: int) -> int
    decreases bs.len() - i,
{
    if i < 0 || i >= bs.len() {
        cur
    } else {
        let nxt = if bs[i].name@ == "dash_at_target"@ && bs[i].timer > 0 {
            let ds = value_of(bs[i].params.view(), "dash_speed"@, 2_200_000);
            let dsa = if ds >= 0 {
                ds
            } else {
                -ds
            };
            if dsa > cur {
                dsa
            } else {
                cur
            }
        } else {
            cur
        };
        spec_max_speed(bs, i + 1, nxt)
    }
}

impl EntityInstance {
    /// Clamp the velocity magnitude to the effective maximum speed (see
    /// [`spec_max_speed`]).
    fn clamp_speed(&mut self)
        requires
            old(self).wf(),
        ensures
            final(self).wf(),
            ({
                let base = if old(self).speed >= 1000 {
                    old(self).speed as int
                } else {
                    1000int
                };
                let ms = spec_max_speed(old(self).behaviors@, 0, base);
                &&& (crate::geom::len_sq(old(self).vel) <= ms * ms ==> final(self).vel == old(
                    self,
                ).vel)
                &&& (crate::geom::len_sq(old(self).vel) > ms * ms ==> final(self).vel
                    == spec_scaled(old(self).vel, ms))
            }),
            final(self).pos == old(self).pos,
            final(self).behaviors@ == old(self).behaviors@,
            final(self).current_target == old(self).current_target,
            final(self).contact_cooldown == old(self).contact_cooldown,
            final(self).uid == old(self).uid,
            final(self).def == old(self).def,
            final(self).stats == old(self).stats,
            final(self).hp == old(self).hp,
            final(self).max_hp == old(self).max_hp,
            final(self).speed == old(self).speed,
    {
        let base: i64 = if self.speed >= 1000 {
            self.speed
        } else {
            1000
        };
        let ghost bs = self.behaviors@;
        let dash_name = "dash_at_target".to_owned();
        let dash_speed_key = "dash_speed".to_owned();
        let mut ms: i64 = base;
        let mut i: usize = 0;
        while i < self.behaviors.len()
            invariant
                self.wf(),
                bs == self.behaviors@,
                i <= bs.len(),
                dash_name@ == "dash_at_target"@,
                dash_speed_key@ == "dash_speed"@,
                0 < ms <= FX_LIMIT,
                spec_max_speed(bs, i as int, ms as int) == spec_max_speed(bs, 0, base as int),
            decreases bs.len() - i,
        {
            let b = &self.behaviors[i];
            if b.name == dash_name && b.timer > 0 {
                let ds = b.params.get_or(&dash_speed_key, 2_200_000);
                let dsa = if ds >= 0 {
                    ds
                } else {
                    -ds
                };
                if dsa > ms {
                    ms = dsa;
                }
            }
            i = i + 1;
        }
        let sq = crate::geom::len_sq_u128(self.vel);
        proof {
            assert((ms as int) * (ms as int) <= (FX_LIMIT as int) * (FX_LIMIT as int))
                by (nonlinear_arith)
                requires
                    0 < ms <= FX_LIMIT,
            ;
        }
        if sq > (ms as u128) * (ms as u128) {
            proof {
                let lsq = crate::geom::len_sq(self.vel);
                assert(lsq > 0) by (nonlinear_arith)
                    requires
                        lsq > (ms as int) * (ms as int),
                        ms > 0,
                ;
            }
            self.vel = crate::geom::scale_to_length(self.vel, ms);
        }
    }
}

/// The terrain probe point of a hitbox placed at `pos`: its center.
pub open spec fn spec_probe(pos: FxVec, hitbox: FxRect) -> FxVec {
    FxVec {
        x: (pos.x + hitbox.x + hitbox.w as int / 2) as i64,
        y: (pos.y + hitbox.y + hitbox.h as int / 2) as i64,
    }
}

/// The solid terrain rectangles gathered around an actor at `pos`: the
/// tiles within the speed-scaled probe radius of the probe point's cell,
/// or nothing when the probe lies outside the grid.
pub open spec fn spec_static_obstacles(
    map: TerrainGrid,
    pos: FxVec,
    hitbox: FxRect,
    vel: FxVec,
    dt: i64,
) -> Seq<FxRect> {
    match map.spec_grid_index(spec_probe(pos, hitbox)) {
        Some(g) => map.spec_tiles_around(
            g,
            spec_collision_radius(map.spec_tile_size(), vel, dt as int),
        ),
        None => Seq::empty(),
    }
}

/// One frame of movement: integrate and resolve X first against the union
/// of freshly probed terrain and the dynamic obstacles, regather, then Y
/// likewise (the deliberate X-before-Y order); an actor with terrain
/// collision off and no dynamic obstacle integrates freely.
pub open spec fn spec_move(
    pos0: FxVec,
    vel0: FxVec,
    def: EntityDef,
    uid: u64,
    target: Option<Target>,
    ctx: EntityContext,
    map: TerrainGrid,
    dt: i64,
) -> (FxVec, FxVec) {
    let dyn_obs = spec_dynamic_obstacles(def.flags, uid, target, ctx);
    if !def.collides && dyn_obs.len() == 0 {
        (
            FxVec {
                x: fx_clamp(pos0.x + fx_mul_div(vel0.x as int, dt as int, 1000)) as i64,
                y: fx_clamp(pos0.y + fx_mul_div(vel0.y as int, dt as int, 1000)) as i64,
            },
            vel0,
        )
    } else {
        let pos1 = FxVec {
            x: fx_clamp(pos0.x + fx_mul_div(vel0.x as int, dt as int, 1000)) as i64,
            y: pos0.y,
        };
        let cs1 = spec_static_obstacles(map, pos1, def.hitbox, vel0, dt) + dyn_obs;
        let rx = if cs1.len() > 0 {
            spec_resolve_axis_x(def.hitbox, pos1, vel0.x, cs1)
        } else {
            (pos1, vel0.x)
        };
        let vel1 = FxVec { x: rx.1, y: vel0.y };
        let pos3 = FxVec {
            x: rx.0.x,
            y: fx_clamp(rx.0.y + fx_mul_div(vel1.y as int, dt as int, 1000)) as i64,
        };
        let cs2 = spec_static_obstacles(map, pos3, def.hitbox, vel1, dt) + dyn_obs;
        let ry = if cs2.len() > 0 {
            spec_resolve_axis_y(def.hitbox, pos3, vel1.y, cs2)
        } else {
            (pos3, vel1.y)
        };
        (ry.0, FxVec { x: rx.1, y: ry.1 })
    }
}

/// Movement reads of the frame context only the player snapshot and the
/// actor snapshots (through the dynamic obstacle gathering); caches and
/// accumulated events do not enter it.
pub proof fn lemma_move_same_frame(
    pos0: FxVec,
    vel0: FxVec,
    def: EntityDef,
    uid: u64,
    target: Option<Target>,
    a: EntityContext,
    b: EntityContext,
    map: TerrainGrid,
    dt: i64,
)
    requires
        a.player == b.player,
        a.entities@ == b.entities@,
    ensures
        spec_move(pos0, vel0, def, uid, target, a, map, dt) == spec_move(
            pos0,
            vel0,
            def,
            uid,
            target,
            b,
            map,
            dt,
        ),
{
    assert(spec_dynamic_obstacles(def.flags, uid, target, a) == spec_dynamic_obstacles(
        def.flags,
        uid,
        target,
        b,
    ));
}

impl EntityInstance {
    /// One simulation step for this actor: reset the velocity, resolve this
    /// frame's target, tick the contact cooldown, evaluate the behavior
    /// tree into desired actions, reconcile the running behaviors against
    /// them, run each behavior's movement routine, clamp the speed, sweep
    /// the collision axes, and check contact damage.
    pub fn update(
        &mut self,
        dt: i64,
        db: &EntityDatabase,
        ctx: &mut EntityContext,
        map: &TerrainGrid,
        registry: &MovementRegistry,
    )
        requires
            old(self).wf(),
            old(ctx).wf(),
            db.wf(),
            map.wf(),
            registry.wf(),
            old(self).def < db.entities@.len(),
            0 <= dt <= FX_LIMIT,
        ensures
            final(self).wf(),
            final(ctx).wf(),
            final(self).uid == old(self).uid,
            final(self).def == old(self).def,
            final(self).hp == old(self).hp,
            final(self).max_hp == old(self).max_hp,
            final(self).speed == old(self).speed,
            final(self).stats.view() == old(self).stats.view(),
            final(ctx).player == old(ctx).player,
            final(ctx).target == old(ctx).target,
            final(ctx).entities@ == old(ctx).entities@,
            final(ctx).view_height == old(ctx).view_height,
            final(self).current_target == spec_resolve_target(
                *old(ctx),
                db.entities@[old(self).def as int].flags,
                old(self).uid,
                old(self).pos,
            ).0,
            final(ctx).target_cache.view() == spec_resolve_target(
                *old(ctx),
                db.entities@[old(self).def as int].flags,
                old(self).uid,
                old(self).pos,
            ).1,
            old(ctx).damage_events@.is_prefix_of(final(ctx).damage_events@),
            final(ctx).damage_events@.len() <= old(ctx).damage_events@.len() + 1,
            ({
                let flags = db.entities@[old(self).def as int].flags;
                let tgt = spec_resolve_target(*old(ctx), flags, old(self).uid, old(self).pos).0;
                let dmg = value_of(old(self).stats.view(), "damage"@, 0);
                let own_hb = world_rect(
                    db.entities@[old(self).def as int].hitbox,
                    final(self).pos,
                );
                let cc1 = spec_tick_cooldown(old(self).contact_cooldown, dt);
                spec_contact_fires(dmg, cc1 as i64, tgt, flags, *old(ctx), own_hb)
                    == (final(ctx).damage_events@.len() == old(ctx).damage_events@.len() + 1)
            }),
            final(ctx).damage_events@.len() == old(ctx).damage_events@.len() + 1 ==> ({
                let flags = db.entities@[old(self).def as int].flags;
                let tgt = spec_resolve_target(*old(ctx), flags, old(self).uid, old(self).pos).0;
                let ev = final(ctx).damage_events@.last();
                &&& ev.amount == value_of(old(self).stats.view(), "damage"@, 0)
                &&& ev.amount > 0
                &&& ev.target == tgt->0
                &&& final(self).contact_cooldown == CONTACT_COOLDOWN
                &&& spec_tick_cooldown(old(self).contact_cooldown, dt) <= 0
            }),
            final(ctx).damage_events@.len() == old(ctx).damage_events@.len()
                ==> final(self).contact_cooldown == spec_tick_cooldown(
                old(self).contact_cooldown,
                dt,
            ),
            ({
                let flags = db.entities@[old(self).def as int].flags;
                let tgt = spec_resolve_target(*old(ctx), flags, old(self).uid, old(self).pos).0;
                let env = CondEnv {
                    pos: old(self).pos,
                    target_pos: (match tgt {
                        Some(t) => Some(t.spec_position()),
                        None => None,
                    }),
                    view_height: old(ctx).view_height,
                };
                let sel = match db.entities@[old(self).def as int].behavior_tree {
                    Some(t) => spec_select_actions(t, env),
                    None => Seq::empty(),
                };
                let kept = crate::movement::spec_filter_views(sel, 0, registry.view());
                let dviews = if kept.len() == 0 {
                    seq![
                        crate::behavior::ActionView {
                            name: "idle"@,
                            params: Seq::<(Seq<char>, int)>::empty(),
                        },
                    ]
                } else {
                    kept
                };
                let synced = crate::movement::spec_sync_views(
                    old(self).behaviors@,
                    dviews,
                    0,
                    registry.view(),
                );
                &&& final(self).behaviors@.len() == dviews.len()
                &&& forall|k: int|
                    0 <= k < dviews.len() ==> (#[trigger] final(self).behaviors@[k]).name@
                        == dviews[k].name && crate::table::same_mapping(
                        final(self).behaviors@[k].params.view(),
                        dviews[k].params,
                    )
                &&& exists|draws: Seq<u32>|
                    #![trigger draws.len()]
                    {
                        let run = crate::movement::spec_run_prefix(
                            FxVec { x: 0, y: 0 },
                            old(self).pos,
                            old(self).speed,
                            env.target_pos,
                            synced,
                            dt,
                            draws,
                            synced.len() as int,
                        );
                        let base = if old(self).speed >= 1000 {
                            old(self).speed as int
                        } else {
                            1000int
                        };
                        let ms = spec_max_speed(final(self).behaviors@, 0, base);
                        let v1 = if crate::geom::len_sq(run.0) <= ms * ms {
                            run.0
                        } else {
                            spec_scaled(run.0, ms)
                        };
                        &&& draws.len() == synced.len()
                        &&& crate::movement::runtime_views(final(self).behaviors@) == run.1
                        &&& (final(self).pos, final(self).vel) == spec_move(
                            old(self).pos,
                            v1,
                            db.entities@[old(self).def as int],
                            old(self).uid,
                            tgt,
                            *old(ctx),
                            *map,
                            dt,
                        )
                    }
            }),
    {
        let ghost flags0 = db.entities@[self.def as int].flags;
        self.vel = FxVec { x: 0, y: 0 };
        let def_flags = db.entities[self.def].flags;
        self.current_target = ctx.resolve_target(def_flags, self.uid, self.pos);
        if self.contact_cooldown > 0 {
            let c = fx_sat_sub(self.contact_cooldown, dt);
            self.contact_cooldown = if c >= 0 {
                c
            } else {
                0
            };
        }
        let ghost resolved = self.current_target;
        let ghost cc1 = self.contact_cooldown;
        let tpos: Option<FxVec> = match &self.current_target {
            Some(t) => Some(t.position()),
            None => None,
        };
        let env = CondEnv { pos: self.pos, target_pos: tpos, view_height: ctx.view_height };
        let acts: Vec<SelectedAction> = match &db.entities[self.def].behavior_tree {
            Some(tree) => select_actions(tree, &env),
            None => Vec::new(),
        };
        let ghost acts_seq = acts@;
        let ghost sel_views = crate::behavior::views_of(acts@);
        let desired = filter_registered_or_idle(acts, registry);
        proof {
            crate::movement::lemma_filter_views(acts_seq, 0, registry.view());
        }
        let mut tmp: Vec<BehaviorRuntime> = Vec::new();
        core::mem::swap(&mut tmp, &mut self.behaviors);
        let ghost pre_behaviors = tmp@;
        proof {
            crate::movement::lemma_sync_identity(pre_behaviors, desired@, 0, registry.view());
        }
        let synced = sync_behaviors(tmp, &desired, registry);
        self.behaviors = synced;
        let ghost post_sync = self.behaviors@;
        let ghost svs = crate::movement::runtime_views(post_sync);
        proof {
            crate::movement::lemma_sync_views(pre_behaviors, desired@, 0, registry.view());
            assert(svs =~= crate::movement::runtime_views(
                spec_sync(pre_behaviors, desired@, 0, registry.view()).0,
            ));
        }
        let ghost mut rnds: Seq<u32> = Seq::empty();
        let n = self.behaviors.len();
        let mut i: usize = 0;
        while i < n
            invariant
                n == self.behaviors@.len(),
                i <= n,
                self.wf(),
                0 <= dt <= FX_LIMIT,
                forall|k: int|
                    0 <= k < n ==> (#[trigger] self.behaviors@[k]).name@ == post_sync[k].name@
                        && self.behaviors@[k].kind == post_sync[k].kind
                        && self.behaviors@[k].params.view() == post_sync[k].params.view(),
                forall|k: int| i <= k < n ==> (#[trigger] self.behaviors@[k]) == post_sync[k],
                post_sync.len() == n,
                svs == crate::movement::runtime_views(post_sync),
                rnds.len() == i,
                (self.vel, crate::movement::runtime_views(
                    self.behaviors@.subrange(0, i as int),
                )) == crate::movement::spec_run_prefix(
                    FxVec { x: 0, y: 0 },
                    old(self).pos,
                    old(self).speed,
                    tpos,
                    svs,
                    dt,
                    rnds,
                    i as int,
                ),
                self.pos == old(self).pos,
                self.uid == old(self).uid,
                self.def == old(self).def,
                self.speed == old(self).speed,
                self.stats == old(self).stats,
                self.hp == old(self).hp,
                self.max_hp == old(self).max_hp,
                self.current_target == resolved,
                self.current_target is Some ==> target_wf(self.current_target->0),
                tpos matches Some(t) ==> vec_in_range(t),
                self.contact_cooldown == cc1,
                0 <= cc1 <= FX_LIMIT,
            decreases n - i,
        {
            let ghost behaviors_pre = self.behaviors@;
            let ghost vel_pre = self.vel;
            let mut b = self.behaviors.remove(i);
            let p = b.params.duplicate();
            let kind = b.kind;
            match kind {
                MovementKind::Idle => movement_idle(
                    &mut self.vel,
                    self.pos,
                    self.speed,
                    tpos,
                    &mut b,
                    dt,
                    &p,
                ),
                MovementKind::Wander => movement_wander(
                    &mut self.vel,
                    self.pos,
                    self.speed,
                    tpos,
                    &mut b,
                    dt,
                    &p,
                ),
                MovementKind::Seek => movement_seek(
                    &mut self.vel,
                    self.pos,
                    self.speed,
                    tpos,
                    &mut b,
                    dt,
                    &p,
                ),
                MovementKind::Flee => movement_flee(
                    &mut self.vel,
                    self.pos,
                    self.speed,
                    tpos,
                    &mut b,
                    dt,
                    &p,
                ),
                MovementKind::Dash => movement_dash_at_target(
                    &mut self.vel,
                    self.pos,
                    self.speed,
                    tpos,
                    &mut b,
                    dt,
                    &p,
                ),
            }
            let ghost bv = b;
            self.behaviors.insert(i, b);
            proof {
                let zero = FxVec { x: 0, y: 0 };
                let bpre = behaviors_pre[i as int];
                assert(bpre == post_sync[i as int]);
                let r: u32 = if bpre.kind == MovementKind::Wander {
                    choose|rnd: u32|
                        {
                            let w = #[trigger] crate::movement::spec_wander(
                                vel_pre,
                                old(self).speed,
                                bpre.timer,
                                bpre.dir,
                                dt,
                                bpre.params.view(),
                                rnd,
                            );
                            self.vel == w.0 && bv.timer == w.1 && bv.dir == w.2
                        }
                } else {
                    0u32
                };
                let step = crate::movement::spec_run_one(
                    vel_pre,
                    old(self).pos,
                    old(self).speed,
                    tpos,
                    bpre.view(),
                    dt,
                    r,
                );
                assert(self.vel == step.0 && bv.view() == step.1);
                crate::movement::lemma_run_prefix_extend(
                    zero,
                    old(self).pos,
                    old(self).speed,
                    tpos,
                    svs,
                    dt,
                    rnds,
                    i as int,
                    r,
                );
                rnds = rnds.push(r);
                assert(rnds[i as int] == r && svs[i as int] == bpre.view());
                assert(self.behaviors@ =~= behaviors_pre.update(i as int, bv));
                assert(crate::movement::runtime_views(self.behaviors@.subrange(0, i + 1))
                    =~= crate::movement::runtime_views(
                    behaviors_pre.subrange(0, i as int),
                ).push(bv.view()));
            }
            i = i + 1;
        }
        proof {
            assert(self.behaviors@.subrange(0, n as int) =~= self.behaviors@);
        }
        let ghost v_run = self.vel;
        self.clamp_speed();
        let ghost v1 = self.vel;
        let ghost ctx_move = *ctx;
        self.move_with_collisions(dt, db, ctx, map);
        proof {
            let reg = registry.view();
            let fviews = crate::behavior::views_of(desired@);
            let spec0 = spec_sync(pre_behaviors, desired@, 0, reg).0;
            assert forall|k: int| 0 <= k < self.behaviors@.len() implies (#[trigger] self.behaviors@[k]).name@
                == fviews[k].name && crate::table::same_mapping(
                self.behaviors@[k].params.view(),
                fviews[k].params,
            ) by {
                assert(crate::movement::runtime_matches(post_sync[k], spec0[k]));
                assert(fviews[k] == desired@[k].view());
            }
            let flags = db.entities@[old(self).def as int].flags;
            let tgt = spec_resolve_target(*old(ctx), flags, old(self).uid, old(self).pos).0;
            let env2 = CondEnv {
                pos: old(self).pos,
                target_pos: (match tgt {
                    Some(t) => Some(t.spec_position()),
                    None => None,
                }),
                view_height: old(ctx).view_height,
            };
            assert(env == env2);
            let sel = match db.entities@[old(self).def as int].behavior_tree {
                Some(t) => spec_select_actions(t, env2),
                None => Seq::<crate::behavior::ActionView>::empty(),
            };
            assert(sel_views =~= sel);
            let kept = crate::movement::spec_filter_views(sel, 0, reg);
            let dviews = if kept.len() == 0 {
                seq![
                    crate::behavior::ActionView {
                        name: "idle"@,
                        params: Seq::<(Seq<char>, int)>::empty(),
                    },
                ]
            } else {
                kept
            };
            if kept.len() == 0 {
                assert(fviews =~= seq![
                    crate::behavior::ActionView {
                        name: "idle"@,
                        params: Seq::<(Seq<char>, int)>::empty(),
                    },
                ]);
            } else {
                assert(fviews =~= kept);
            }
            let synced = crate::movement::spec_sync_views(old(self).behaviors@, dviews, 0, reg);
            assert(pre_behaviors == old(self).behaviors@);
            assert(fviews == dviews);
            assert(synced == svs);
            assert(synced.len() == n);
            let zero = FxVec { x: 0, y: 0 };
            let run = crate::movement::spec_run_prefix(
                zero,
                old(self).pos,
                old(self).speed,
                tpos,
                synced,
                dt,
                rnds,
                synced.len() as int,
            );
            assert(run.0 == v_run);
            assert(run.1 == crate::movement::runtime_views(self.behaviors@));
            let base = if old(self).speed >= 1000 {
                old(self).speed as int
            } else {
                1000int
            };
            let ms = spec_max_speed(self.behaviors@, 0, base);
            assert(v1 == (if crate::geom::len_sq(v_run) <= ms * ms {
                v_run
            } else {
                spec_scaled(v_run, ms)
            }));
            lemma_move_same_frame(
                old(self).pos,
                v1,
                db.entities@[old(self).def as int],
                old(self).uid,
                tgt,
                ctx_move,
                *old(ctx),
                *map,
                dt,
            );
            assert((self.pos, self.vel) == spec_move(
                old(self).pos,
                v1,
                db.entities@[old(self).def as int],
                old(self).uid,
                tgt,
                *old(ctx),
                *map,
                dt,
            ));
            assert(env.target_pos == tpos);
        }
        let ghost ctx_before_contact = *ctx;
        self.apply_contact_damage(ctx, db);
        proof {
            let flags = db.entities@[old(self).def as int].flags;
            let tgt = spec_resolve_target(*old(ctx), flags, old(self).uid, old(self).pos).0;
            let dmg = value_of(old(self).stats.view(), "damage"@, 0);
            let own_hb = world_rect(db.entities@[old(self).def as int].hitbox, self.pos);
            let cc1 = spec_tick_cooldown(old(self).contact_cooldown, dt);
            lemma_contact_fires_same_frame(
                dmg,
                cc1 as i64,
                tgt,
                flags,
                ctx_before_contact,
                *old(ctx),
                own_hb,
            );
        }
    }

    /// Integrate the velocity over the frame and resolve collisions axis by
    /// axis against gathered static and dynamic obstacles (see
    /// [`spec_move`]). Whenever this path runs (terrain collision enabled,
    /// or any dynamic obstacle present) the terrain is probed, so dynamic
    /// resolution always sees a consistent local context; actors exempt
    /// from every obstacle move freely.
    fn move_with_collisions(
        &mut self,
        dt: i64,
        db: &EntityDatabase,
        ctx: &mut EntityContext,
        map: &TerrainGrid,
    )
        requires
            old(self).wf(),
            old(ctx).wf(),
            db.wf(),
            map.wf(),
            old(self).def < db.entities@.len(),
            0 <= dt <= FX_LIMIT,
        ensures
            final(self).wf(),
            *final(ctx) == *old(ctx),
            final(self).uid == old(self).uid,
            final(self).def == old(self).def,
            final(self).hp == old(self).hp,
            final(self).max_hp == old(self).max_hp,
            final(self).speed == old(self).speed,
            final(self).stats == old(self).stats,
            final(self).behaviors@ == old(self).behaviors@,
            final(self).current_target == old(self).current_target,
            final(self).contact_cooldown == old(self).contact_cooldown,
            (final(self).pos, final(self).vel) == spec_move(
                old(self).pos,
                old(self).vel,
                db.entities@[old(self).def as int],
                old(self).uid,
                old(self).current_target,
                *old(ctx),
                *map,
                dt,
            ),
    {
        let def = &db.entities[self.def];
        collect_dynamic_collision_hitboxes(
            def.flags,
            self.uid,
            self.current_target,
            ctx,
            &mut self.dynamic_collision_scratch,
        );
        if def.collides || self.dynamic_collision_scratch.len() > 0 {
            let mut pos = self.pos;
            let mut vel = self.vel;
            let dx = fx_scale(vel.x, dt, 1000);
            pos = FxVec { x: fx_sat_add(pos.x, dx), y: pos.y };
            self.collision_scratch.clear();
            let probe = crate::geom::hitbox_center_world(pos, def.hitbox);
            match map.grid_index(probe) {
                Some(g) => {
                    let radius = collision_radius(map.tile_size(), vel, dt);
                    map.fill_hitboxes_around_grid(g, radius, &mut self.collision_scratch);
                },
                None => (),
            }
            append_rects(&mut self.collision_scratch, &self.dynamic_collision_scratch);
            if self.collision_scratch.len() > 0 {
                let (rp, rvx) = resolve_collisions_axis(
                    def.hitbox,
                    pos,
                    vel.x,
                    &self.collision_scratch,
                    Axis::X,
                );
                pos = rp;
                vel = FxVec { x: rvx, y: vel.y };
            }
            let dy = fx_scale(vel.y, dt, 1000);
            pos = FxVec { x: pos.x, y: fx_sat_add(pos.y, dy) };
            self.collision_scratch.clear();
            let probe = crate::geom::hitbox_center_world(pos, def.hitbox);
            match map.grid_index(probe) {
                Some(g) => {
                    let radius = collision_radius(map.tile_size(), vel, dt);
                    map.fill_hitboxes_around_grid(g, radius, &mut self.collision_scratch);
                },
                None => (),
            }
            append_rects(&mut self.collision_scratch, &self.dynamic_collision_scratch);
            if self.collision_scratch.len() > 0 {
                let (rp, rvy) = resolve_collisions_axis(
                    def.hitbox,
                    pos,
                    vel.y,
                    &self.collision_scratch,
                    Axis::Y,
                );
                pos = rp;
                vel = FxVec { x: vel.x, y: rvy };
            }
            self.pos = pos;
            self.vel = vel;
        } else {
            let dx = fx_scale(self.vel.x, dt, 1000);
            let dy = fx_scale(self.vel.y, dt, 1000);
            self.pos = crate::geom::vec_sat_add(self.pos, FxVec { x: dx, y: dy });
        }
    }
}

/// A spawned actor as the frame driver holds it.
pub struct Entity {
    pub instance: EntityInstance,
}

impl Entity {
    /// Spawn from a template id (see [`EntityDatabase::spawn`]).
    pub fn spawn(
        db: &EntityDatabase,
        id: &str,
        pos: FxVec,
        registry: &MovementRegistry,
        ids: &mut IdGen,
    ) -> (r: Option<Entity>)
        requires
            db.wf(),
            vec_in_range(pos),
            registry.wf(),
            old(ids).spec_next() < ID_LIMIT,
        ensures
            (r is Some) == (db.spec_entity_id(id@, 0) is Some),
            r matches Some(e) ==> e.instance.wf() && e.instance.uid == old(ids).spec_next()
                && e.instance.pos == pos && db.spec_entity_id(id@, 0) == Some(e.instance.def),
    {
        match db.spawn(id, pos, registry, ids) {
            Some(instance) => Some(Entity { instance }),
            None => None,
        }
    }

    /// One simulation step (see [`EntityInstance::update`]).
    pub fn update(
        &mut self,
        dt: i64,
        db: &EntityDatabase,
        ctx: &mut EntityContext,
        map: &TerrainGrid,
        registry: &MovementRegistry,
    )
        requires
            old(self).instance.wf(),
            old(ctx).wf(),
            db.wf(),
            map.wf(),
            registry.wf(),
            old(self).instance.def < db.entities@.len(),
            0 <= dt <= FX_LIMIT,
        ensures
            final(self).instance.wf(),
            final(ctx).wf(),
            final(self).instance.uid == old(self).instance.uid,
            final(self).instance.def == old(self).instance.def,
            final(self).instance.hp == old(self).instance.hp,
            final(self).instance.max_hp == old(self).instance.max_hp,
            final(self).instance.speed == old(self).instance.speed,
            final(self).instance.stats.view() == old(self).instance.stats.view(),
            final(ctx).player == old(ctx).player,
            final(ctx).entities@ == old(ctx).entities@,
            final(ctx).target == old(ctx).target,
            final(ctx).view_height == old(ctx).view_height,
            final(self).instance.current_target == spec_resolve_target(
                *old(ctx),
                db.entities@[old(self).instance.def as int].flags,
                old(self).instance.uid,
                old(self).instance.pos,
            ).0,
            final(ctx).target_cache.view() == spec_resolve_target(
                *old(ctx),
                db.entities@[old(self).instance.def as int].flags,
                old(self).instance.uid,
                old(self).instance.pos,
            ).1,
            old(ctx).damage_events@.is_prefix_of(final(ctx).damage_events@),
            final(ctx).damage_events@.len() <= old(ctx).damage_events@.len() + 1,
            ({
                let flags = db.entities@[old(self).instance.def as int].flags;
                let tgt = spec_resolve_target(
                    *old(ctx),
                    flags,
                    old(self).instance.uid,
                    old(self).instance.pos,
                ).0;
                let dmg = value_of(old(self).instance.stats.view(), "damage"@, 0);
                let own_hb = world_rect(
                    db.entities@[old(self).instance.def as int].hitbox,
                    final(self).instance.pos,
                );
                let cc1 = spec_tick_cooldown(old(self).instance.contact_cooldown, dt);
                spec_contact_fires(dmg, cc1 as i64, tgt, flags, *old(ctx), own_hb)
                    == (final(ctx).damage_events@.len() == old(ctx).damage_events@.len() + 1)
            }),
            final(ctx).damage_events@.len() == old(ctx).damage_events@.len() + 1 ==> ({
                let flags = db.entities@[old(self).instance.def as int].flags;
                let tgt = spec_resolve_target(
                    *old(ctx),
                    flags,
                    old(self).instance.uid,
                    old(self).instance.pos,
                ).0;
                let ev = final(ctx).damage_events@.last();
                &&& ev.amount == value_of(old(self).instance.stats.view(), "damage"@, 0)
                &&& ev.amount > 0
                &&& ev.target == tgt->0
                &&& final(self).instance.contact_cooldown == CONTACT_COOLDOWN
                &&& spec_tick_cooldown(old(self).instance.contact_cooldown, dt) <= 0
            }),
            final(ctx).damage_events@.len() == old(ctx).damage_events@.len()
                ==> final(self).instance.contact_cooldown == spec_tick_cooldown(
                old(self).instance.contact_cooldown,
                dt,
            ),
            ({
                let flags = db.entities@[old(self).instance.def as int].flags;
                let tgt = spec_resolve_target(
                    *old(ctx),
                    flags,
                    old(self).instance.uid,
                    old(self).instance.pos,
                ).0;
                let env = CondEnv {
                    pos: old(self).instance.pos,
                    target_pos: (match tgt {
                        Some(t) => Some(t.spec_position()),
                        None => None,
                    }),
                    view_height: old(ctx).view_height,
                };
                let sel = match db.entities@[old(self).instance.def as int].behavior_tree {
                    Some(t) => spec_select_actions(t, env),
                    None => Seq::empty(),
                };
                let kept = crate::movement::spec_filter_views(sel, 0, registry.view());
                let dviews = if kept.len() == 0 {
                    seq![
                        crate::behavior::ActionView {
                            name: "idle"@,
                            params: Seq::<(Seq<char>, int)>::empty(),
                        },
                    ]
                } else {
                    kept
                };
                let synced = crate::movement::spec_sync_views(
                    old(self).instance.behaviors@,
                    dviews,
                    0,
                    registry.view(),
                );
                &&& final(self).instance.behaviors@.len() == dviews.len()
                &&& forall|k: int|
                    0 <= k < dviews.len() ==> (
                    #[trigger] final(self).instance.behaviors@[k]).name@ == dviews[k].name
                        && crate::table::same_mapping(
                        final(self).instance.behaviors@[k].params.view(),
                        dviews[k].params,
                    )
                &&& exists|draws: Seq<u32>|
                    #![trigger draws.len()]
                    {
                        let run = crate::movement::spec_run_prefix(
                            FxVec { x: 0, y: 0 },
                            old(self).instance.pos,
                            old(self).instance.speed,
                            env.target_pos,
                            synced,
                            dt,
                            draws,
                            synced.len() as int,
                        );
                        let base = if old(self).instance.speed >= 1000 {
                            old(self).instance.speed as int
                        } else {
                            1000int
                        };
                        let ms = spec_max_speed(final(self).instance.behaviors@, 0, base);
                        let v1 = if crate::geom::len_sq(run.0) <= ms * ms {
                            run.0
                        } else {
                            spec_scaled(run.0, ms)
                        };
                        &&& draws.len() == synced.len()
                        &&& crate::movement::runtime_views(final(self).instance.behaviors@)
                            == run.1
                        &&& (final(self).instance.pos, final(self).instance.vel) == spec_move(
                            old(self).instance.pos,
                            v1,
                            db.entities@[old(self).instance.def as int],
                            old(self).instance.uid,
                            tgt,
                            *old(ctx),
                            *map,
                            dt,
                        )
                    }
            }),
    {
        self.instance.update(dt, db, ctx, map, registry);
    }

    /// The actor's hitbox placed at its current position.
    pub fn hitbox(&self, db: &EntityDatabase) -> (r: FxRect)
        requires
            db.wf(),
            self.instance.wf(),
            self.instance.def < db.entities@.len(),
        ensures
            r == world_rect(db.entities@[self.instance.def as int].hitbox, self.instance.pos),
    {
        self.instance.hitbox(db)
    }

    /// The actor's current world position.
    pub fn position(&self) -> (r: FxVec)
        ensures
            r == self.instance.pos,
    {
        self.instance.pos
    }

    /// Clamp the actor so its placed hitbox lies inside the world's
    /// bounding rectangle.
    pub fn clamp_to_map(&mut self, map: &TerrainGrid, db: &EntityDatabase)
        requires
            db.wf(),
            old(self).instance.wf(),
            old(self).instance.def < db.entities@.len(),
            map.wf(),
            db.entities@[old(self).instance.def as int].hitbox.w <= map.spec_border_hitbox().w,
            db.entities@[old(self).instance.def as int].hitbox.h <= map.spec_border_hitbox().h,
        ensures
            final(self).instance.wf(),
            ({
                let hb = db.entities@[old(self).instance.def as int].hitbox;
                let bounds = map.spec_border_hitbox();
                &&& final(self).instance.pos.x == fx_clamp(
                    crate::geom::clamped_axis(
                        old(self).instance.pos.x as int,
                        bounds.x - hb.x,
                        bounds.x + bounds.w - hb.w - hb.x,
                    ),
                )
                &&& final(self).instance.pos.y == fx_clamp(
                    crate::geom::clamped_axis(
                        old(self).instance.pos.y as int,
                        bounds.y - hb.y,
                        bounds.y + bounds.h - hb.h - hb.y,
                    ),
                )
            }),
            final(self).instance.same_except_pos(old(self).instance),
    {
        let bounds = map.get_border_hitbox();
        let hb = db.entities[self.instance.def].hitbox;
        let p = crate::geom::clamp_hitbox_to_rect(hb, self.instance.pos, bounds);
        proof {
            let bounds2 = map.spec_border_hitbox();
            assert(-2 * crate::fixed::FX_LIMIT <= bounds2.x - hb.x <= 2 * crate::fixed::FX_LIMIT);
        }
        let px = clamp_i64(p.x, -FX_LIMIT, FX_LIMIT);
        let py = clamp_i64(p.y, -FX_LIMIT, FX_LIMIT);
        self.instance.pos = FxVec { x: px, y: py };
    }
}

impl EntityInstance {
    /// Every field but the position agrees.
    pub open spec fn same_except_pos(self, other: EntityInstance) -> bool {
        &&& self.uid == other.uid
        &&& self.def == other.def
        &&& self.vel == other.vel
        &&& self.speed == other.speed
        &&& self.behaviors@ == other.behaviors@
        &&& self.stats == other.stats
        &&& self.hp == other.hp
        &&& self.max_hp == other.max_hp
        &&& self.current_target == other.current_target
        &&& self.contact_cooldown == other.contact_cooldown
    }
}

/// The first position in `s`, from `i` on, whose actor carries id `uid`.
pub open spec fn spec_actor_index(s: Seq<Entity>, uid: u64, i: int) -> Option<int>
    decreases s.len() - i,
{
    if i < 0 || i >= s.len() {
        None
    } else if s[i].instance.uid == uid {
        Some(i)
    } else {
        spec_actor_index(s, uid, i + 1)
    }
}

/// Apply one damage amount to the first live-set actor with id `uid`, if
/// present; health is floored at zero and nothing else changes.
pub fn apply_damage_to_actor(actors: &mut Vec<Entity>, uid: u64, amount: i64) -> (hit: bool)
    requires
        forall|k: int| 0 <= k < old(actors)@.len() ==> (#[trigger] old(actors)@[k]).instance.wf(),
        fx_in_range(amount as int),
    ensures
        forall|k: int| 0 <= k < final(actors)@.len() ==> (#[trigger] final(actors)@[k]).instance.wf(),
        final(actors)@.len() == old(actors)@.len(),
        hit == (spec_actor_index(old(actors)@, uid, 0) is Some),
        ({
            match spec_actor_index(old(actors)@, uid, 0) {
                Some(j) => {
                    &&& forall|k: int|
                        0 <= k < final(actors)@.len() && k != j ==> final(actors)@[k] == old(
                            actors,
                        )@[k]
                    &&& final(actors)@[j].instance.same_except_pos_and_hp(old(actors)@[j].instance)
                    &&& final(actors)@[j].instance.pos == old(actors)@[j].instance.pos
                    &&& (amount <= 0 ==> final(actors)@[j].instance.hp == old(
                        actors,
                    )@[j].instance.hp)
                    &&& (amount > 0 ==> final(actors)@[j].instance.hp == (if old(
                        actors,
                    )@[j].instance.hp - amount >= 0 {
                        old(actors)@[j].instance.hp - amount
                    } else {
                        0int
                    }))
                },
                None => final(actors)@ == old(actors)@,
            }
        }),
{
    let ghost s = actors@;
    let mut i: usize = 0;
    while i < actors.len()
        invariant
            s == actors@,
            s == old(actors)@,
            i <= s.len(),
            forall|k: int| 0 <= k < s.len() ==> (#[trigger] s[k]).instance.wf(),
            fx_in_range(amount as int),
            spec_actor_index(s, uid, i as int) == spec_actor_index(s, uid, 0),
            forall|k: int| 0 <= k < i ==> s[k].instance.uid != uid,
        decreases s.len() - i,
    {
        if actors[i].instance.uid == uid {
            proof {
                assert(spec_actor_index(s, uid, i as int) == Some(i as int));
            }
            let mut e = actors.remove(i);
            e.instance.apply_damage(amount);
            actors.insert(i, e);
            proof {
                assert(actors@.len() == s.len());
                assert forall|k: int| 0 <= k < actors@.len() && k != i implies actors@[k]
                    == s[k] by {
                    if k < i {
                        assert(actors@[k] == s.remove(i as int)[k]);
                    } else {
                        assert(actors@[k] == s.remove(i as int)[k - 1]);
                    }
                }
            }
            return true;
        }
        i = i + 1;
    }
    false
}

impl EntityInstance {
    /// Every field but position and health agrees.
    pub open spec fn same_except_pos_and_hp(self, other: EntityInstance) -> bool {
        &&& self.uid == other.uid
        &&& self.def == other.def
        &&& self.vel == other.vel
        &&& self.speed == other.speed
        &&& self.behaviors@ == other.behaviors@
        &&& self.stats == other.stats
        &&& self.max_hp == other.max_hp
        &&& self.current_target == other.current_target
        &&& self.contact_cooldown == other.contact_cooldown
    }
}

/// The live members of `s` from `i` on: those with positive health.
pub open spec fn spec_live_actors(s: Seq<Entity>, i: int) -> Seq<Entity>
    decreases s.len() - i,
{
    if i < 0 || i >= s.len() {
        Seq::empty()
    } else if s[i].instance.hp > 0 {
        seq![s[i]] + spec_live_actors(s, i + 1)
    } else {
        spec_live_actors(s, i + 1)
    }
}

/// Drop every actor whose health reached zero, keeping the rest in order;
/// the single point where actors leave the live set.
pub fn remove_dead_actors(actors: &mut Vec<Entity>)
    requires
        forall|k: int| 0 <= k < old(actors)@.len() ==> (#[trigger] old(actors)@[k]).instance.wf(),
    ensures
        final(actors)@ == spec_live_actors(old(actors)@, 0),
        forall|k: int| 0 <= k < final(actors)@.len() ==> (#[trigger] final(actors)@[k]).instance.wf(),
{
    let ghost s = actors@;
    let mut out: Vec<Entity> = Vec::new();
    let mut i: usize = 0;
    let n = actors.len();
    proof {
        assert(spec_live_actors(s, 0) =~= out@ + spec_live_actors(s, 0));
    }
    while i < n
        invariant
            n == s.len(),
            i <= n,
            actors@ =~= s.subrange(i as int, s.len() as int),
            forall|k: int| 0 <= k < s.len() ==> (#[trigger] s[k]).instance.wf(),
            forall|k: int| 0 <= k < out@.len() ==> (#[trigger] out@[k]).instance.wf(),
            spec_live_actors(s, 0) =~= out@ + spec_live_actors(s, i as int),
        decreases n - i,
    {
        let e = actors.remove(0);
        proof {
            assert(e == s[i as int]);
            assert(actors@ =~= s.subrange(i + 1, s.len() as int));
        }
        if e.instance.hp > 0 {
            out.push(e);
        }
        proof {
            assert(spec_live_actors(s, 0) =~= out@ + spec_live_actors(s, i + 1));
        }
        i = i + 1;
    }
    core::mem::swap(actors, &mut out);
    proof {
        assert(actors@ =~= spec_live_actors(s, 0));
    }
}

/// Build the per-frame snapshot of every actor: id, definition index, kind,
/// position, world hitbox, and liveness.
pub fn snapshot_actors(actors: &Vec<Entity>, db: &EntityDatabase) -> (r: Vec<EntityTarget>)
    requires
        db.wf(),
        forall|k: int| 0 <= k < actors@.len() ==> (#[trigger] actors@[k]).instance.wf(),
        forall|k: int|
            0 <= k < actors@.len() ==> (#[trigger] actors@[k]).instance.def < db.entities@.len(),
    ensures
        r@.len() == actors@.len(),
        forall|k: int|
            0 <= k < actors@.len() ==> (#[trigger] r@[k]) == (EntityTarget {
                id: actors@[k].instance.uid,
                def: actors@[k].instance.def,
                kind: db.entities@[actors@[k].instance.def as int].kind,
                pos: actors@[k].instance.pos,
                hitbox: world_rect(
                    db.entities@[actors@[k].instance.def as int].hitbox,
                    actors@[k].instance.pos,
                ),
                alive: actors@[k].instance.hp > 0,
            }),
        forall|k: int|
            0 <= k < r@.len() ==> crate::target::entity_target_wf(#[trigger] r@[k]),
{
    let mut out: Vec<EntityTarget> = Vec::new();
    let mut i: usize = 0;
    while i < actors.len()
        invariant
            i <= actors@.len(),
            db.wf(),
            forall|k: int| 0 <= k < actors@.len() ==> (#[trigger] actors@[k]).instance.wf(),
            forall|k: int|
                0 <= k < actors@.len() ==> (#[trigger] actors@[k]).instance.def
                    < db.entities@.len(),
            out@.len() == i,
            forall|k: int|
                0 <= k < i ==> (#[trigger] out@[k]) == (EntityTarget {
                    id: actors@[k].instance.uid,
                    def: actors@[k].instance.def,
                    kind: db.entities@[actors@[k].instance.def as int].kind,
                    pos: actors@[k].instance.pos,
                    hitbox: world_rect(
                        db.entities@[actors@[k].instance.def as int].hitbox,
                        actors@[k].instance.pos,
                    ),
                    alive: actors@[k].instance.hp > 0,
                }),
            forall|k: int|
                0 <= k < out@.len() ==> crate::target::entity_target_wf(#[trigger] out@[k]),
        decreases actors@.len() - i,
    {
        let e = &actors[i];
        let def = &db.entities[e.instance.def];
        let hb = def.world_hitbox(e.instance.pos);
        out.push(
            EntityTarget {
                id: e.instance.uid,
                def: e.instance.def,
                kind: def.kind,
                pos: e.instance.pos,
                hitbox: hb,
                alive: e.instance.hp > 0,
            },
        );
        i = i + 1;
    }
    out
}

/// Append every rectangle of `extra` to `out`, keeping well-formedness.
fn append_rects(out: &mut Vec<FxRect>, extra: &Vec<FxRect>)
    requires
        colliders_wf(old(out)@),
        colliders_wf(extra@),
    ensures
        final(out)@ == old(out)@ + extra@,
        colliders_wf(final(out)@),
{
    let ghost before = out@;
    let mut i: usize = 0;
    while i < extra.len()
        invariant
            i <= extra@.len(),
            out@ =~= before + extra@.subrange(0, i as int),
            colliders_wf(before),
            colliders_wf(extra@),
            colliders_wf(out@),
        decreases extra@.len() - i,
    {
        out.push(extra[i]);
        proof {
            assert(out@ =~= before + extra@.subrange(0, i + 1));
        }
        i = i + 1;
    }
    proof {
        assert(out@ =~= before + extra@);
    }
}

} // verus!
