//! Target resolution: which position, player, or actor an actor should
//! pursue this frame, honoring flag-based filters and a cross-frame cache.

use vstd::prelude::*;
use std::collections::HashMap;
use crate::geom::{FxVec, FxRect, dist_sq, dist_sq_u128, vec_in_range};
use crate::flags::{EntityKind, TargetMask, spec_target_mask, target_mask_of, flag_set, has_flag,
    DEF_FLAG_TARGET_PLAYER};
use crate::fixed::fx_in_range;

verus! {

broadcast use vstd::std_specs::hash::group_hash_axioms;

/// Largest actor id the simulation will assign; leaves room to pack an id
/// and a 4-bit targeting mask into one cache key.
pub const ID_LIMIT: u64 = 0x1000_0000_0000_0000;

/// A snapshot of the player as a target: position and world-space hitbox.
#[derive(Clone, Copy, Debug, PartialEq, Eq, Structural)]
pub struct PlayerTarget {
    pub pos: FxVec,
    pub hitbox: FxRect,
}

/// A snapshot of another actor as a target candidate.
#[derive(Clone, Copy, Debug, PartialEq, Eq, Structural)]
pub struct EntityTarget {
    pub id: u64,
    pub def: usize,
    pub kind: EntityKind,
    pub pos: FxVec,
    pub hitbox: FxRect,
    pub alive: bool,
}

/// This frame's resolved target of an actor.
#[derive(Clone, Copy, Debug, PartialEq, Eq, Structural)]
pub enum Target {
    /// A bare position in the world.
    Position(FxVec),
    /// The player.
    Player(PlayerTarget),
    /// Another actor, by snapshot.
    Entity(EntityTarget),
}

/// Well-formed player snapshot; the hitbox is a placed (world-space)
/// rectangle, so it lives in the wide range.
pub open spec fn player_target_wf(p: PlayerTarget) -> bool {
    vec_in_range(p.pos) && crate::geom::rect_wide(p.hitbox)
}

/// Well-formed candidate snapshot; the hitbox is a placed (world-space)
/// rectangle, so it lives in the wide range.
pub open spec fn entity_target_wf(t: EntityTarget) -> bool {
    vec_in_range(t.pos) && crate::geom::rect_wide(t.hitbox) && t.id < ID_LIMIT
}

/// Well-formed target.
pub open spec fn target_wf(t: Target) -> bool {
    match t {
        Target::Position(p) => vec_in_range(p),
        Target::Player(p) => player_target_wf(p),
        Target::Entity(e) => entity_target_wf(e),
    }
}

impl Target {
    /// The world position this target stands at.
    pub open spec fn spec_position(self) -> FxVec {
        match self {
            Target::Position(pos) => pos,
            Target::Player(player) => player.pos,
            Target::Entity(entity) => entity.pos,
        }
    }

    /// The world position this target stands at.
    pub fn position(&self) -> (r: FxVec)
        ensures
            r == self.spec_position(),
    {
        match *self {
            Target::Position(pos) => pos,
            Target::Player(player) => player.pos,
            Target::Entity(entity) => entity.pos,
        }
    }

    /// The target's world-space hitbox; a bare position has none.
    pub open spec fn spec_hitbox(self) -> Option<FxRect> {
        match self {
            Target::Position(_) => None,
            Target::Player(player) => Some(player.hitbox),
            Target::Entity(entity) => Some(entity.hitbox),
        }
    }

    /// The target's world-space hitbox; a bare position has none.
    pub fn hitbox(&self) -> (r: Option<FxRect>)
        ensures
            r == self.spec_hitbox(),
    {
        match *self {
            Target::Position(_) => None,
            Target::Player(player) => Some(player.hitbox),
            Target::Entity(entity) => Some(entity.hitbox),
        }
    }
}

/// A deferred damage effect: applied by the frame driver after every actor
/// has updated, never immediately.
#[derive(Clone, Copy, Debug)]
pub struct DamageEvent {
    pub amount: i64,
    pub target: Target,
}

/// The cache key for an actor id and targeting mask: the mask occupies the
/// low four bits.
pub open spec fn cache_key(id: u64, mask: int) -> int {
    id * 16 + mask
}

/// The cross-frame target cache, keyed by actor id and targeting mask. An
/// entry of `None` records that resolution found no target; it keeps
/// answering "no target" until a full recomputation overwrites it.
pub struct TargetCache {
    map: HashMap<u64, Option<EntityTarget>>,
}

impl TargetCache {
    /// The cache contents as a map from packed key to recorded result.
    pub closed spec fn view(self) -> Map<u64, Option<EntityTarget>> {
        self.map@
    }

    /// The empty cache.
    pub fn new() -> (r: TargetCache)
        ensures
            r.view() == Map::<u64, Option<EntityTarget>>::empty(),
    {
        TargetCache { map: HashMap::new() }
    }

    /// Look up the recorded result for `(id, mask)`.
    pub fn lookup(&self, id: u64, mask: u8) -> (r: Option<Option<EntityTarget>>)
        requires
            id < ID_LIMIT,
            mask < 16,
        ensures
            ({
                let key = (cache_key(id, mask as int)) as u64;
                match r {
                    Some(v) => self.view().contains_key(key) && self.view()[key] == v,
                    None => !self.view().contains_key(key),
                }
            }),
    {
        let key: u64 = id * 16 + (mask as u64);
        match self.map.get(&key) {
            Some(v) => Some(*v),
            None => None,
        }
    }

    /// Record the result for `(id, mask)`.
    pub fn store(&mut self, id: u64, mask: u8, value: Option<EntityTarget>)
        requires
            id < ID_LIMIT,
            mask < 16,
        ensures
            final(self).view() == old(self).view().insert((cache_key(id, mask as int)) as u64, value),
    {
        let key: u64 = id * 16 + (mask as u64);
        self.map.insert(key, value);
    }
}

/// Whether candidate `c` may be targeted by actor `self_id` under mask `m`:
/// another actor, live, of an eligible kind.
pub open spec fn eligible_candidate(c: EntityTarget, self_id: u64, m: TargetMask) -> bool {
    c.id != self_id && c.alive && m.kind_eligible(c.kind)
}

/// The strictly-nearest eligible candidate from position `i` on, starting
/// from `best`; ties keep the earliest-seen candidate.
pub open spec fn spec_nearest(
    s: Seq<EntityTarget>,
    i: int,
    pos: FxVec,
    self_id: u64,
    m: TargetMask,
    best: Option<EntityTarget>,
) -> Option<EntityTarget>
    decreases s.len() - i,
{
    if i < 0 || i >= s.len() {
        best
    } else {
        let next = if !eligible_candidate(s[i], self_id, m) {
            best
        } else {
            match best {
                Some(b) => if dist_sq(pos, s[i].pos) >= dist_sq(pos, b.pos) {
                    best
                } else {
                    Some(s[i])
                },
                None => Some(s[i]),
            }
        };
        spec_nearest(s, i + 1, pos, self_id, m, next)
    }
}

/// The first candidate with id `id` that is live and of an eligible kind;
/// used to revalidate a cached actor target.
pub open spec fn spec_find_live(s: Seq<EntityTarget>, i: int, id: u64, m: TargetMask) -> Option<
    EntityTarget,
>
    decreases s.len() - i,
{
    if i < 0 || i >= s.len() {
        None
    } else if s[i].id == id && s[i].alive && m.kind_eligible(s[i].kind) {
        Some(s[i])
    } else {
        spec_find_live(s, i + 1, id, m)
    }
}

/// The per-frame context every actor reads during its update: the player
/// snapshot, an optional externally forced target, the frame-start snapshot
/// of all actors, the cross-frame target cache, the view height, and the
/// frame's accumulated damage events.
pub struct EntityContext {
    pub player: Option<PlayerTarget>,
    pub target: Option<Target>,
    pub entities: Vec<EntityTarget>,
    pub target_cache: TargetCache,
    pub view_height: i64,
    pub damage_events: Vec<DamageEvent>,
}

/// What target resolution yields and what it leaves in the cache, as a
/// function of the frame context and the actor: the result, and the cache
/// contents afterwards. Priority order: a forced target; the player under
/// the target-player flag; nothing under an empty mask; then the cache — a
/// recorded "no target" and a revalidated live actor entry are returned as
/// they stand, while anything else triggers a full nearest scan whose
/// result (even "no target") is written back.
pub open spec fn spec_resolve_target(
    ctx: EntityContext,
    flags: u16,
    actor_id: u64,
    actor_pos: FxVec,
) -> (Option<Target>, Map<u64, Option<EntityTarget>>) {
    let m = spec_target_mask(flags);
    let key = (cache_key(actor_id, m.value())) as u64;
    let cache = ctx.target_cache.view();
    if ctx.target is Some {
        (ctx.target, cache)
    } else if flag_set(flags, DEF_FLAG_TARGET_PLAYER) {
        (
            match ctx.player {
                Some(p) => Some(Target::Player(p)),
                None => None,
            },
            cache,
        )
    } else if m.is_empty() {
        (None, cache)
    } else if cache.contains_key(key) && cache[key] is None {
        (None, cache)
    } else if cache.contains_key(key) && (cache[key] matches Some(c) && spec_find_live(
        ctx.entities@,
        0,
        c.id,
        m,
    ) is Some) {
        (
            match cache[key] {
                Some(c) => match spec_find_live(ctx.entities@, 0, c.id, m) {
                    Some(f) => Some(Target::Entity(f)),
                    None => None,
                },
                None => None,
            },
            cache,
        )
    } else {
        let best = spec_nearest(ctx.entities@, 0, actor_pos, actor_id, m, None);
        (
            match best {
                Some(b) => Some(Target::Entity(b)),
                None => None,
            },
            cache.insert(key, best),
        )
    }
}

/// Cache law: while a `(actor id, mask)` entry records "no target",
/// resolution keeps returning no target and leaves the record in place; no
/// implicit expiry exists, only a full recomputation overwrites it.
pub proof fn lemma_cache_none_is_sticky(
    ctx: EntityContext,
    flags: u16,
    actor_id: u64,
    actor_pos: FxVec,
)
    requires
        ctx.target is None,
        !flag_set(flags, DEF_FLAG_TARGET_PLAYER),
        !spec_target_mask(flags).is_empty(),
        ctx.target_cache.view().contains_key(
            (cache_key(actor_id, spec_target_mask(flags).value())) as u64,
        ),
        ctx.target_cache.view()[(cache_key(actor_id, spec_target_mask(flags).value())) as u64]
            is None,
    ensures
        spec_resolve_target(ctx, flags, actor_id, actor_pos).0 is None,
        spec_resolve_target(ctx, flags, actor_id, actor_pos).1 == ctx.target_cache.view(),
{
}

impl EntityContext {
    /// Well-formed context: every snapshot in range.
    pub open spec fn wf(self) -> bool {
        &&& (self.player matches Some(p) ==> player_target_wf(p))
        &&& (self.target matches Some(t) ==> target_wf(t))
        &&& forall|i: int|
            0 <= i < self.entities@.len() ==> entity_target_wf(#[trigger] self.entities@[i])
        &&& fx_in_range(self.view_height as int)
    }

    /// All fields except the target cache agree.
    pub open spec fn same_except_cache(self, other: EntityContext) -> bool {
        &&& self.player == other.player
        &&& self.target == other.target
        &&& self.entities@ == other.entities@
        &&& self.view_height == other.view_height
        &&& self.damage_events@ == other.damage_events@
    }

    /// Resolve this frame's target for an actor with definition flags
    /// `flags`, id `actor_id`, at `actor_pos`.
    ///
    /// Priority: a forced target short-circuits; then the target-player
    /// flag returns the player snapshot; then the nearest-target mask is
    /// consulted. An empty mask means no target. A cache entry recording
    /// "no target" answers "no target" without recomputation and without
    /// touching the cache — only a full recomputation (which happens on a
    /// miss or a stale actor entry) overwrites it. A cached actor target is
    /// revalidated against the live snapshot before reuse. Recomputation
    /// scans all candidates once, keeps the strictly-nearest by squared
    /// distance (ties keep the earliest seen), and writes the result —
    /// including an explicit "no target" — back to the cache.
    pub fn resolve_target(&mut self, flags: u16, actor_id: u64, actor_pos: FxVec) -> (r: Option<
        Target,
    >)
        requires
            old(self).wf(),
            vec_in_range(actor_pos),
            actor_id < ID_LIMIT,
        ensures
            final(self).wf(),
            final(self).same_except_cache(*old(self)),
            r matches Some(t) ==> target_wf(t),
            r == spec_resolve_target(*old(self), flags, actor_id, actor_pos).0,
            final(self).target_cache.view() == spec_resolve_target(
                *old(self),
                flags,
                actor_id,
                actor_pos,
            ).1,
    {
        match self.target {
            Some(t) => {
                return Some(t);
            },
            None => (),
        }
        if has_flag(flags, DEF_FLAG_TARGET_PLAYER) {
            return match self.player {
                Some(p) => Some(Target::Player(p)),
                None => None,
            };
        }
        let m = target_mask_of(flags);
        let mask = m.encode();
        if mask == 0 {
            return None;
        }
        match self.target_cache.lookup(actor_id, mask) {
            Some(None) => {
                return None;
            },
            Some(Some(cached)) => {
                match find_live_in(&self.entities, cached.id, m) {
                    Some(found) => {
                        return Some(Target::Entity(found));
                    },
                    None => (),
                }
            },
            None => (),
        }
        let best = nearest_candidate(&self.entities, actor_pos, actor_id, m);
        self.target_cache.store(actor_id, mask, best);
        match best {
            Some(b) => Some(Target::Entity(b)),
            None => None,
        }
    }
}

/// The first live, kind-eligible candidate with the given id (see
/// [`spec_find_live`]).
pub fn find_live_in(entities: &Vec<EntityTarget>, id: u64, m: TargetMask) -> (r: Option<
    EntityTarget,
>)
    requires
        forall|i: int| 0 <= i < entities@.len() ==> entity_target_wf(#[trigger] entities@[i]),
    ensures
        r == spec_find_live(entities@, 0, id, m),
        r matches Some(f) ==> entity_target_wf(f),
{
    let ghost s = entities@;
    let mut i: usize = 0;
    while i < entities.len()
        invariant
            s == entities@,
            i <= s.len(),
            forall|j: int| 0 <= j < s.len() ==> entity_target_wf(#[trigger] s[j]),
            spec_find_live(s, i as int, id, m) == spec_find_live(s, 0, id, m),
        decreases s.len() - i,
    {
        let c = entities[i];
        if c.id == id && c.alive && m.eligible(c.kind) {
            return Some(c);
        }
        i = i + 1;
    }
    None
}

/// The strictly-nearest live, kind-eligible candidate other than the actor
/// itself (see [`spec_nearest`]); ties keep the earliest-seen candidate.
fn nearest_candidate(
    entities: &Vec<EntityTarget>,
    pos: FxVec,
    self_id: u64,
    m: TargetMask,
) -> (r: Option<EntityTarget>)
    requires
        forall|i: int| 0 <= i < entities@.len() ==> entity_target_wf(#[trigger] entities@[i]),
        vec_in_range(pos),
    ensures
        r == spec_nearest(entities@, 0, pos, self_id, m, None),
        r matches Some(b) ==> entity_target_wf(b),
{
    let ghost s = entities@;
    let mut best: Option<EntityTarget> = None;
    let mut i: usize = 0;
    while i < entities.len()
        invariant
            s == entities@,
            i <= s.len(),
            vec_in_range(pos),
            forall|j: int| 0 <= j < s.len() ==> entity_target_wf(#[trigger] s[j]),
            best matches Some(b) ==> entity_target_wf(b),
            spec_nearest(s, i as int, pos, self_id, m, best) == spec_nearest(
                s,
                0,
                pos,
                self_id,
                m,
                None,
            ),
        decreases s.len() - i,
    {
        let c = entities[i];
        let eligible = c.id != self_id && c.alive && m.eligible(c.kind);
        if eligible {
            match best {
                Some(b) => {
                    let dc = dist_sq_u128(pos, c.pos);
                    let db = dist_sq_u128(pos, b.pos);
                    if dc < db {
                        best = Some(c);
                    }
                },
                None => {
                    best = Some(c);
                },
            }
        }
        i = i + 1;
    }
    best
}

} // verus!
