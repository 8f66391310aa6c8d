//! Definition flags: ten independent bits that control targeting and
//! collision exemption, plus the kind-eligibility rule shared by targeting
//! and contact damage.

use vstd::prelude::*;

verus! {

/// The kind of an actor definition.
#[derive(Clone, Copy, Debug, PartialEq, Eq, Structural)]
pub enum EntityKind {
    Enemy,
    Friend,
    Misc,
}

pub const DEF_FLAG_TARGET_PLAYER: u16 = 1u16 << 0;

pub const DEF_FLAG_TARGET_NEAREST_ENTITY: u16 = 1u16 << 1;

pub const DEF_FLAG_TARGET_NEAREST_ENEMY: u16 = 1u16 << 2;

pub const DEF_FLAG_TARGET_NEAREST_FRIEND: u16 = 1u16 << 3;

pub const DEF_FLAG_TARGET_NEAREST_MISC: u16 = 1u16 << 4;

pub const DEF_FLAG_NO_ENTITY_COLLISION: u16 = 1u16 << 5;

pub const DEF_FLAG_NO_ENEMY_COLLISION: u16 = 1u16 << 6;

pub const DEF_FLAG_NO_FRIEND_COLLISION: u16 = 1u16 << 7;

pub const DEF_FLAG_NO_MISC_COLLISION: u16 = 1u16 << 8;

pub const DEF_FLAG_NO_PLAYER_COLLISION: u16 = 1u16 << 9;

impl EntityKind {
    /// The kind a data directory name stands for, if any.
    pub fn from_dir(name: &str) -> (r: Option<EntityKind>)
        ensures
            (name@ == "enemy"@ ==> r == Some(EntityKind::Enemy)),
            (name@ == "friend"@ ==> r == Some(EntityKind::Friend)),
            (name@ == "misc"@ ==> r == Some(EntityKind::Misc)),
            (name@ != "enemy"@ && name@ != "friend"@ && name@ != "misc"@ ==> r is None),
    {
        proof {
            reveal_strlit("enemy");
            reveal_strlit("friend");
            reveal_strlit("misc");
            assert("enemy"@.len() == 5 && "friend"@.len() == 6 && "misc"@.len() == 4);
        }
        let n = name.to_owned();
        if n == "enemy".to_owned() {
            Some(EntityKind::Enemy)
        } else if n == "friend".to_owned() {
            Some(EntityKind::Friend)
        } else if n == "misc".to_owned() {
            Some(EntityKind::Misc)
        } else {
            None
        }
    }
}

/// Whether `bit` is set in `flags`.
pub open spec fn flag_set(flags: u16, bit: u16) -> bool {
    flags & bit != 0
}

/// Test a flag bit.
pub fn has_flag(flags: u16, bit: u16) -> (r: bool)
    ensures
        r == flag_set(flags, bit),
{
    (flags & bit) != 0
}

/// The four nearest-target bits of a definition, unpacked.
#[derive(Clone, Copy, Debug, PartialEq, Eq, Structural)]
pub struct TargetMask {
    /// Targets the nearest live actor of any kind.
    pub any: bool,
    /// Targets the nearest live enemy.
    pub enemy: bool,
    /// Targets the nearest live friend.
    pub friend: bool,
    /// Targets the nearest live miscellaneous actor.
    pub misc: bool,
}

impl TargetMask {
    /// The mask as a small integer, one bit per flag; used as part of the
    /// target-cache key.
    pub open spec fn value(self) -> int {
        (if self.any {
            1int
        } else {
            0int
        }) + (if self.enemy {
            2int
        } else {
            0int
        }) + (if self.friend {
            4int
        } else {
            0int
        }) + (if self.misc {
            8int
        } else {
            0int
        })
    }

    /// No nearest-target bit set: the actor seeks no actor target.
    pub open spec fn is_empty(self) -> bool {
        !self.any && !self.enemy && !self.friend && !self.misc
    }

    /// Some specific-kind bit is set.
    pub open spec fn has_specific(self) -> bool {
        self.enemy || self.friend || self.misc
    }

    /// The specific-kind bit for `kind`.
    pub open spec fn kind_bit(self, kind: EntityKind) -> bool {
        match kind {
            EntityKind::Enemy => self.enemy,
            EntityKind::Friend => self.friend,
            EntityKind::Misc => self.misc,
        }
    }

    /// The kind-eligibility rule: when any specific-kind bit is set, only
    /// kinds whose bit is set are eligible; otherwise the any-entity bit
    /// admits every kind.
    pub open spec fn kind_eligible(self, kind: EntityKind) -> bool {
        if self.has_specific() {
            self.kind_bit(kind)
        } else {
            self.any || self.kind_bit(kind)
        }
    }

    /// The mask as a small integer (see [`Self::value`]).
    pub fn encode(self) -> (r: u8)
        ensures
            r == self.value(),
            r < 16,
            (r == 0) == self.is_empty(),
    {
        (if self.any {
            1u8
        } else {
            0u8
        }) + (if self.enemy {
            2u8
        } else {
            0u8
        }) + (if self.friend {
            4u8
        } else {
            0u8
        }) + (if self.misc {
            8u8
        } else {
            0u8
        })
    }

    /// Decide kind eligibility (see [`Self::kind_eligible`]).
    pub fn eligible(self, kind: EntityKind) -> (r: bool)
        ensures
            r == self.kind_eligible(kind),
    {
        let specific = self.enemy || self.friend || self.misc;
        let bit = match kind {
            EntityKind::Enemy => self.enemy,
            EntityKind::Friend => self.friend,
            EntityKind::Misc => self.misc,
        };
        if specific {
            bit
        } else {
            self.any || bit
        }
    }
}

/// The nearest-target mask encoded in a definition's flag bits.
pub open spec fn spec_target_mask(flags: u16) -> TargetMask {
    TargetMask {
        any: flag_set(flags, DEF_FLAG_TARGET_NEAREST_ENTITY),
        enemy: flag_set(flags, DEF_FLAG_TARGET_NEAREST_ENEMY),
        friend: flag_set(flags, DEF_FLAG_TARGET_NEAREST_FRIEND),
        misc: flag_set(flags, DEF_FLAG_TARGET_NEAREST_MISC),
    }
}

/// Unpack the nearest-target mask from a definition's flag bits.
pub fn target_mask_of(flags: u16) -> (r: TargetMask)
    ensures
        r == spec_target_mask(flags),
{
    TargetMask {
        any: has_flag(flags, DEF_FLAG_TARGET_NEAREST_ENTITY),
        enemy: has_flag(flags, DEF_FLAG_TARGET_NEAREST_ENEMY),
        friend: has_flag(flags, DEF_FLAG_TARGET_NEAREST_FRIEND),
        misc: has_flag(flags, DEF_FLAG_TARGET_NEAREST_MISC),
    }
}

/// With any specific-kind bit set, a kind is eligible only if its own bit is
/// set — even when the any-entity bit is also set.
pub proof fn lemma_specific_mask_gates_kind(m: TargetMask, kind: EntityKind)
    requires
        m.has_specific(),
        m.kind_eligible(kind),
    ensures
        m.kind_bit(kind),
{
}

} // verus!
