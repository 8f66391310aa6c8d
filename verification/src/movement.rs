//! Movement dispatch: the name-to-routine registry, the per-behavior
//! runtime state, and the built-in movement routines.

use vstd::prelude::*;
use crate::geom::{FxVec, len_sq, lerp_vec, scale_to_length, vec_in_range};
use crate::fixed::{fx_in_range, fx_clamp, fx_mul_div, fx_sat_sub, clamp_i64, sqrt_floor,
    FX_LIMIT};
use crate::table::{MovementParams, value_of};
use crate::behavior::{BehaviorNode, SelectedAction, ActionView};

verus! {

/// The built-in movement routines an action name can resolve to.
#[derive(Clone, Copy, Debug, PartialEq, Eq, Structural)]
pub enum MovementKind {
    /// Stand still.
    Idle,
    /// Drift in a periodically re-rolled random direction.
    Wander,
    /// Steer toward the resolved target.
    Seek,
    /// Steer away from the resolved target.
    Flee,
    /// Burst toward the resolved target, then rest on a cooldown.
    Dash,
}

/// The runtime state of one active behavior. It persists across frames only
/// while the same action name with the same parameter table stays selected.
pub struct BehaviorRuntime {
    pub name: String,
    pub kind: MovementKind,
    pub params: MovementParams,
    pub timer: i64,
    pub dir: FxVec,
    pub cooldown: i64,
}

impl BehaviorRuntime {
    /// Well-formed runtime state.
    pub open spec fn wf(self) -> bool {
        self.params.wf() && fx_in_range(self.timer as int) && fx_in_range(self.cooldown as int)
            && vec_in_range(self.dir)
    }
}

/// The name-to-routine registry, built once at startup.
pub struct MovementRegistry {
    entries: Vec<(String, MovementKind)>,
}

/// Whether some registry entry carries name `k`.
pub open spec fn reg_has(s: Seq<(Seq<char>, MovementKind)>, k: Seq<char>) -> bool {
    exists|i: int| 0 <= i < s.len() && s[i].0 == k
}

/// The routine registered under `k`, or `Idle` when the name is unknown.
pub open spec fn reg_resolve(s: Seq<(Seq<char>, MovementKind)>, k: Seq<char>) -> MovementKind {
    if reg_has(s, k) {
        s[choose|i: int| 0 <= i < s.len() && s[i].0 == k].1
    } else {
        MovementKind::Idle
    }
}

/// No registry name occurs twice.
pub open spec fn reg_unique(s: Seq<(Seq<char>, MovementKind)>) -> bool {
    forall|i: int, j: int| 0 <= i < j < s.len() ==> s[i].0 != s[j].0
}

impl MovementRegistry {
    /// The registry contents.
    pub closed spec fn view(self) -> Seq<(Seq<char>, MovementKind)> {
        self.entries@.map_values(|p: (String, MovementKind)| (p.0@, p.1))
    }

    /// Well-formed registry: unique names.
    pub open spec fn wf(self) -> bool {
        reg_unique(self.view())
    }

    /// The registry with every built-in routine under its action name.
    pub fn new() -> (r: MovementRegistry)
        ensures
            r.wf(),
            reg_resolve(r.view(), "idle"@) == MovementKind::Idle,
            reg_resolve(r.view(), "wander"@) == MovementKind::Wander,
            reg_resolve(r.view(), "seek"@) == MovementKind::Seek,
            reg_resolve(r.view(), "flee"@) == MovementKind::Flee,
            reg_resolve(r.view(), "dash_at_target"@) == MovementKind::Dash,
            reg_resolve(r.view(), "virabird_ai"@) == MovementKind::Dash,
            reg_has(r.view(), "idle"@),
            reg_has(r.view(), "wander"@),
            reg_has(r.view(), "seek"@),
            reg_has(r.view(), "flee"@),
            reg_has(r.view(), "dash_at_target"@),
            reg_has(r.view(), "virabird_ai"@),
            forall|k: Seq<char>|
                #[trigger] reg_has(r.view(), k) ==> k == "idle"@ || k == "wander"@ || k == "seek"@
                    || k == "flee"@ || k == "dash_at_target"@ || k == "virabird_ai"@,
    {
        proof {
            reveal_strlit("idle");
            reveal_strlit("wander");
            reveal_strlit("seek");
            reveal_strlit("flee");
            reveal_strlit("dash_at_target");
            reveal_strlit("virabird_ai");
        }
        proof {
            assert("idle"@.len() == 4 && "wander"@.len() == 6 && "seek"@.len() == 4
                && "flee"@.len() == 4 && "dash_at_target"@.len() == 14 && "virabird_ai"@.len()
                == 11);
            assert("idle"@[0] == 'i' && "seek"@[0] == 's' && "flee"@[0] == 'f');
            assert("idle"@ != "wander"@ && "idle"@ != "seek"@ && "idle"@ != "flee"@ && "idle"@
                != "dash_at_target"@ && "idle"@ != "virabird_ai"@);
            assert("wander"@ != "seek"@ && "wander"@ != "flee"@ && "wander"@ != "dash_at_target"@
                && "wander"@ != "virabird_ai"@);
            assert("seek"@ != "flee"@ && "seek"@ != "dash_at_target"@ && "seek"@
                != "virabird_ai"@);
            assert("flee"@ != "dash_at_target"@ && "flee"@ != "virabird_ai"@);
            assert("dash_at_target"@ != "virabird_ai"@);
        }
        let mut r = MovementRegistry { entries: Vec::new() };
        r.register("idle", MovementKind::Idle);
        r.register("wander", MovementKind::Wander);
        proof {
            assert(reg_has(r.view(), "idle"@) && reg_resolve(r.view(), "idle"@)
                == MovementKind::Idle);
        }
        r.register("seek", MovementKind::Seek);
        proof {
            assert(reg_has(r.view(), "idle"@) && reg_resolve(r.view(), "idle"@)
                == MovementKind::Idle);
            assert(reg_has(r.view(), "wander"@) && reg_resolve(r.view(), "wander"@)
                == MovementKind::Wander);
        }
        r.register("flee", MovementKind::Flee);
        proof {
            assert(reg_has(r.view(), "idle"@) && reg_resolve(r.view(), "idle"@)
                == MovementKind::Idle);
            assert(reg_has(r.view(), "wander"@) && reg_resolve(r.view(), "wander"@)
                == MovementKind::Wander);
            assert(reg_has(r.view(), "seek"@) && reg_resolve(r.view(), "seek"@)
                == MovementKind::Seek);
        }
        r.register("dash_at_target", MovementKind::Dash);
        proof {
            assert(reg_has(r.view(), "idle"@) && reg_resolve(r.view(), "idle"@)
                == MovementKind::Idle);
            assert(reg_has(r.view(), "wander"@) && reg_resolve(r.view(), "wander"@)
                == MovementKind::Wander);
            assert(reg_has(r.view(), "seek"@) && reg_resolve(r.view(), "seek"@)
                == MovementKind::Seek);
            assert(reg_has(r.view(), "flee"@) && reg_resolve(r.view(), "flee"@)
                == MovementKind::Flee);
        }
        r.register("virabird_ai", MovementKind::Dash);
        proof {
            assert(reg_has(r.view(), "idle"@) && reg_resolve(r.view(), "idle"@)
                == MovementKind::Idle);
            assert(reg_has(r.view(), "wander"@) && reg_resolve(r.view(), "wander"@)
                == MovementKind::Wander);
            assert(reg_has(r.view(), "seek"@) && reg_resolve(r.view(), "seek"@)
                == MovementKind::Seek);
            assert(reg_has(r.view(), "flee"@) && reg_resolve(r.view(), "flee"@)
                == MovementKind::Flee);
            assert(reg_has(r.view(), "dash_at_target"@) && reg_resolve(
                r.view(),
                "dash_at_target"@,
            ) == MovementKind::Dash);
        }
        r
    }

    /// Register `kind` under `name`, replacing any previous routine of that
    /// name.
    pub fn register(&mut self, name: &str, kind: MovementKind)
        requires
            old(self).wf(),
        ensures
            final(self).wf(),
            reg_has(final(self).view(), name@),
            reg_resolve(final(self).view(), name@) == kind,
            forall|k: Seq<char>|
                k != name@ ==> #[trigger] reg_has(final(self).view(), k) == reg_has(
                    old(self).view(),
                    k,
                ) && reg_resolve(final(self).view(), k) == reg_resolve(old(self).view(), k),
    {
        let ghost s = self.view();
        let key = name.to_owned();
        match self.find(&key) {
            Some(i) => {
                self.entries[i] = (key, kind);
                proof {
                    let t = self.view();
                    assert(t =~= s.update(i as int, (name@, kind)));
                    assert forall|a: int, b: int| 0 <= a < b < t.len() implies t[a].0
                        != t[b].0 by {
                        assert(s[a].0 == t[a].0 || a == i);
                        assert(s[b].0 == t[b].0 || b == i);
                    }
                    assert(t[i as int].0 == name@);
                    assert(reg_has(t, name@));
                    let w = choose|w: int| 0 <= w < t.len() && t[w].0 == name@;
                    lemma_reg_unique_index(t, w, i as int);
                    assert forall|k: Seq<char>| k != name@ implies #[trigger] reg_has(t, k)
                        == reg_has(s, k) && reg_resolve(t, k) == reg_resolve(s, k) by {
                        assert forall|j: int| 0 <= j < s.len() && s[j].0 == k implies t[j].0
                            == k by {
                            if j == i {
                                assert(s[i as int].0 == name@);
                            }
                        }
                        if reg_has(t, k) {
                            let a = choose|a: int| 0 <= a < t.len() && t[a].0 == k;
                            assert(s[a].0 == k);
                            assert(reg_has(s, k));
                            let b = choose|b: int| 0 <= b < s.len() && s[b].0 == k;
                            assert(t[b].0 == k);
                            lemma_reg_unique_index(t, choose|w: int|
                                0 <= w < t.len() && t[w].0 == k, b);
                            lemma_reg_unique_index(s, choose|w: int|
                                0 <= w < s.len() && s[w].0 == k, b);
                            assert(t[b] == s[b]);
                        } else {
                            if reg_has(s, k) {
                                let b = choose|b: int| 0 <= b < s.len() && s[b].0 == k;
                                assert(t[b].0 == k);
                            }
                        }
                    }
                }
            },
            None => {
                self.entries.push((key, kind));
                proof {
                    let t = self.view();
                    assert(t =~= s.push((name@, kind)));
                    assert forall|a: int, b: int| 0 <= a < b < t.len() implies t[a].0
                        != t[b].0 by {
                        if b == s.len() {
                            assert(!reg_has(s, name@));
                            assert(t[a] == s[a]);
                        }
                    }
                    assert(t[s.len() as int].0 == name@);
                    let w = choose|w: int| 0 <= w < t.len() && t[w].0 == name@;
                    lemma_reg_unique_index(t, w, s.len() as int);
                    assert forall|k: Seq<char>| k != name@ implies #[trigger] reg_has(t, k)
                        == reg_has(s, k) && reg_resolve(t, k) == reg_resolve(s, k) by {
                        if reg_has(t, k) {
                            let a = choose|a: int| 0 <= a < t.len() && t[a].0 == k;
                            assert(a != s.len());
                            assert(s[a].0 == k);
                            let b = choose|b: int| 0 <= b < s.len() && s[b].0 == k;
                            assert(t[b].0 == k);
                            lemma_reg_unique_index(t, choose|w: int|
                                0 <= w < t.len() && t[w].0 == k, b);
                            lemma_reg_unique_index(s, choose|w: int|
                                0 <= w < s.len() && s[w].0 == k, b);
                        } else {
                            if reg_has(s, k) {
                                let b = choose|b: int| 0 <= b < s.len() && s[b].0 == k;
                                assert(t[b].0 == k);
                            }
                        }
                    }
                }
            },
        }
    }

    /// The index of `name`'s entry, if registered.
    fn find(&self, key: &String) -> (r: Option<usize>)
        requires
            self.wf(),
        ensures
            match r {
                Some(i) => i < self.view().len() && self.view()[i as int].0 == key@ && reg_has(
                    self.view(),
                    key@,
                ),
                None => !reg_has(self.view(), key@),
            },
    {
        let ghost s = self.view();
        let mut i: usize = 0;
        while i < self.entries.len()
            invariant
                s == self.view(),
                i <= s.len(),
                forall|j: int| 0 <= j < i ==> s[j].0 != key@,
            decreases s.len() - i,
        {
            if self.entries[i].0 == *key {
                return Some(i);
            }
            i = i + 1;
        }
        proof {
            if reg_has(s, key@) {
                let w = choose|w: int| 0 <= w < s.len() && s[w].0 == key@;
                assert(s[w].0 == key@);
            }
        }
        None
    }

    /// Whether `name` is registered.
    pub fn has(&self, name: &String) -> (r: bool)
        requires
            self.wf(),
        ensures
            r == reg_has(self.view(), name@),
    {
        match self.find(name) {
            Some(_) => true,
            None => false,
        }
    }

    /// The routine registered under `name`, defaulting to idling for an
    /// unknown name.
    pub fn resolve(&self, name: &String) -> (r: MovementKind)
        requires
            self.wf(),
        ensures
            r == reg_resolve(self.view(), name@),
    {
        match self.find(&name) {
            Some(i) => {
                proof {
                    let w = choose|w: int|
                        0 <= w < self.view().len() && self.view()[w].0 == name@;
                    lemma_reg_unique_index(self.view(), w, i as int);
                }
                self.entries[i].1
            },
            None => MovementKind::Idle,
        }
    }
}

/// A draw from the game's random number generator, for the wander routine
/// and for callers seeding spawn positions.
///
/// Relies on macroquad::rand::rand: one draw from the global pseudo-random
/// generator. Nothing is promised of the value; every caller must cope with
/// any outcome.
#[verifier::external_body]
pub fn random_u32() -> u32 {
    macroquad::rand::rand()
}

/// The direction a random draw resolves to: a vector of length close to one
/// world unit, never null. The horizontal component spreads over
/// `[-999, 999]`; the vertical one completes the unit length, its sign
/// taken from a higher bit of the draw.
pub open spec fn spec_dir_from_random(r: u32) -> FxVec {
    let x = (r % 1999) as int - 999;
    let ym = sqrt_floor((1_000_000 - x * x) as nat) as int;
    let y = if (r / 4096) % 2 == 0 {
        ym
    } else {
        -ym
    };
    FxVec { x: x as i64, y: y as i64 }
}

/// Turn a random draw into a non-null direction (see
/// [`spec_dir_from_random`]).
pub fn dir_from_random(r: u32) -> (d: FxVec)
    ensures
        d == spec_dir_from_random(r),
        len_sq(d) > 0,
        vec_in_range(d),
{
    let x: i64 = ((r % 1999) as i64) - 999;
    proof {
        assert(-999 <= x <= 999);
        assert(0 <= x * x <= 998001 && (1_000_000 - x * x) >= 1999) by (nonlinear_arith)
            requires
                -999 <= x <= 999,
        ;
    }
    let ysq: u128 = (1_000_000 - x * x * 1) as u128;
    let ym = crate::fixed::isqrt_u128(ysq) as i64;
    proof {
        crate::fixed::lemma_sqrt_floor(ysq as nat);
        let sf = sqrt_floor(ysq as nat);
        assert((sf + 1) * (sf + 1) >= 1 && (sf == 0 ==> (sf + 1) * (sf + 1) == 1))
            by (nonlinear_arith);
        assert(sf >= 1);
        assert(sf * sf <= 1_000_000);
        assert(sf <= 1000) by (nonlinear_arith)
            requires
                sf * sf <= 1_000_000,
                sf >= 0,
        ;
    }
    let y: i64 = if (r / 4096) % 2 == 0 {
        ym
    } else {
        -ym
    };
    let d = FxVec { x, y };
    proof {
        assert(len_sq(d) > 0) by (nonlinear_arith)
            requires
                d.y != 0 || d.x != 0,
                len_sq(d) == d.x * d.x + d.y * d.y,
        ;
    }
    d
}

/// A vector rescaled to a target length (defined for non-null vectors).
pub open spec fn spec_scaled(v: FxVec, target: int) -> FxVec {
    let n = sqrt_floor(len_sq(v) as nat) as int;
    FxVec {
        x: fx_mul_div(v.x as int, target, n) as i64,
        y: fx_mul_div(v.y as int, target, n) as i64,
    }
}

/// Component-wise linear interpolation by `t` thousandths.
pub open spec fn spec_lerp(a: FxVec, b: FxVec, t: int) -> FxVec {
    FxVec {
        x: (a.x + fx_mul_div(b.x - a.x, t, 1000)) as i64,
        y: (a.y + fx_mul_div(b.y - a.y, t, 1000)) as i64,
    }
}

/// Clamp into `[0, 1000]`: an interpolation factor.
pub open spec fn spec_clamp01k(v: int) -> int {
    if v < 0 {
        0int
    } else if v > 1000 {
        1000int
    } else {
        v
    }
}

/// The wander interval a parameter table prescribes: the `interval` entry,
/// at least a tenth of a second.
pub open spec fn spec_wander_interval(p: Seq<(Seq<char>, int)>) -> int {
    let interval0 = value_of(p, "interval"@, 1500);
    if interval0 >= 100 {
        interval0
    } else {
        100int
    }
}

/// One wander step: tick the re-roll timer; once it runs out (or the
/// direction is null) adopt a fresh random direction and reset the timer to
/// the full interval; then steer the velocity smoothly toward the current
/// direction at the configured speed.
pub open spec fn spec_wander(
    vel: FxVec,
    base_speed: i64,
    timer: i64,
    dir: FxVec,
    dt: i64,
    p: Seq<(Seq<char>, int)>,
    rnd: u32,
) -> (FxVec, int, FxVec) {
    let timer1 = fx_clamp(timer - dt);
    let reroll = timer1 <= 0 || len_sq(dir) == 0;
    let timer2 = if reroll {
        spec_wander_interval(p)
    } else {
        timer1
    };
    let dir2 = if reroll {
        spec_dir_from_random(rnd)
    } else {
        dir
    };
    let speed = value_of(p, "speed"@, base_speed as int);
    let accel = value_of(p, "accel"@, 10_000);
    let t = spec_clamp01k(fx_mul_div(accel, dt as int, 1000));
    let cur = if len_sq(vel) > 100 {
        spec_scaled(vel, 1000)
    } else {
        dir2
    };
    let smooth = spec_lerp(cur, dir2, t);
    let vel2 = if len_sq(smooth) > 100 {
        spec_scaled(smooth, speed)
    } else {
        vel
    };
    (vel2, timer2, dir2)
}

/// Stand still: the velocity becomes null; the runtime state is untouched.
pub fn movement_idle(
    vel: &mut FxVec,
    _pos: FxVec,
    _base_speed: i64,
    _target_pos: Option<FxVec>,
    behavior: &mut BehaviorRuntime,
    _dt: i64,
    _params: &MovementParams,
)
    ensures
        *final(vel) == (FxVec { x: 0, y: 0 }),
        *final(behavior) == *old(behavior),
{
    *vel = FxVec { x: 0, y: 0 };
}

/// Drift in a random direction, re-rolled every `interval` seconds (see
/// [`spec_wander`]). Driving the timer past the interval always yields a
/// non-null direction and a timer reset to the full interval.
pub fn movement_wander(
    vel: &mut FxVec,
    _pos: FxVec,
    base_speed: i64,
    _target_pos: Option<FxVec>,
    behavior: &mut BehaviorRuntime,
    dt: i64,
    params: &MovementParams,
)
    requires
        vec_in_range(*old(vel)),
        fx_in_range(base_speed as int),
        old(behavior).wf(),
        params.wf(),
        params.view() == old(behavior).params.view(),
        0 <= dt <= FX_LIMIT,
    ensures
        final(behavior).name == old(behavior).name,
        final(behavior).kind == old(behavior).kind,
        final(behavior).params == old(behavior).params,
        final(behavior).cooldown == old(behavior).cooldown,
        final(behavior).wf(),
        vec_in_range(*final(vel)),
        exists|rnd: u32|
            #![trigger spec_wander(
                *old(vel),
                base_speed,
                old(behavior).timer,
                old(behavior).dir,
                dt,
                params.view(),
                rnd,
            )]
            {
                let (v2, t2, d2) = spec_wander(
                    *old(vel),
                    base_speed,
                    old(behavior).timer,
                    old(behavior).dir,
                    dt,
                    params.view(),
                    rnd,
                );
                *final(vel) == v2 && final(behavior).timer == t2 && final(behavior).dir == d2
            },
        fx_clamp(old(behavior).timer - dt) <= 0 || len_sq(old(behavior).dir) == 0 ==> len_sq(final(behavior).dir) > 0 && final(behavior).timer == spec_wander_interval(params.view()),
        !(fx_clamp(old(behavior).timer - dt) <= 0 || len_sq(old(behavior).dir) == 0) ==> final(behavior).dir == old(behavior).dir && final(behavior).timer == fx_clamp(
            old(behavior).timer - dt,
        ),
{
    let speed_key = "speed".to_owned();
    let accel_key = "accel".to_owned();
    let interval_key = "interval".to_owned();
    let interval0 = params.get_or(&interval_key, 1500);
    let interval = if interval0 >= 100 {
        interval0
    } else {
        100
    };
    behavior.timer = fx_sat_sub(behavior.timer, dt);
    let dir_sq = crate::geom::len_sq_u128(behavior.dir);
    let ghost mut rw: u32 = 0;
    if behavior.timer <= 0 || dir_sq == 0 {
        behavior.timer = interval;
        let rv = random_u32();
        proof {
            rw = rv;
        }
        behavior.dir = dir_from_random(rv);
    }
    let speed = params.get_or(&speed_key, base_speed);
    let accel = params.get_or(&accel_key, 10_000);
    let t = clamp_i64(crate::fixed::fx_scale(accel, dt, 1000), 0, 1000);
    let vel_sq = crate::geom::len_sq_u128(*vel);
    let cur = if vel_sq > 100 {
        scale_to_length(*vel, 1000)
    } else {
        behavior.dir
    };
    let smooth = lerp_vec(cur, behavior.dir, t);
    let smooth_sq = crate::geom::len_sq_u128(smooth);
    if smooth_sq > 100 {
        *vel = scale_to_length(smooth, speed);
    }
    proof {
        let (v2, t2, d2) = spec_wander(
            *old(vel),
            base_speed,
            old(behavior).timer,
            old(behavior).dir,
            dt,
            params.view(),
            rw,
        );
        assert(*vel == v2 && behavior.timer == t2 && behavior.dir == d2);
    }
}

/// One steering step toward (or away from) the target: when a target
/// exists and is not on top of the actor, turn the current velocity
/// direction smoothly toward the desired one and move at the configured
/// speed; otherwise leave the velocity alone.
pub open spec fn spec_steer(
    vel: FxVec,
    pos: FxVec,
    base_speed: i64,
    target: Option<FxVec>,
    dt: i64,
    p: Seq<(Seq<char>, int)>,
    toward: bool,
) -> FxVec {
    match target {
        None => vel,
        Some(tp) => {
            let diff = if toward {
                FxVec { x: (tp.x - pos.x) as i64, y: (tp.y - pos.y) as i64 }
            } else {
                FxVec { x: (pos.x - tp.x) as i64, y: (pos.y - tp.y) as i64 }
            };
            if len_sq(diff) > 100 {
                let desired = spec_scaled(diff, 1000);
                let cur = if len_sq(vel) > 100 {
                    spec_scaled(vel, 1000)
                } else {
                    desired
                };
                let speed = value_of(p, "speed"@, base_speed as int);
                let accel = value_of(p, "accel"@, 12_000);
                let t = spec_clamp01k(fx_mul_div(accel, dt as int, 1000));
                let smooth = spec_lerp(cur, desired, t);
                if len_sq(smooth) > 100 {
                    spec_scaled(smooth, speed)
                } else {
                    vel
                }
            } else {
                vel
            }
        },
    }
}

/// Steer toward the resolved target (see [`spec_steer`]).
pub fn movement_seek(
    vel: &mut FxVec,
    pos: FxVec,
    base_speed: i64,
    target_pos: Option<FxVec>,
    behavior: &mut BehaviorRuntime,
    dt: i64,
    params: &MovementParams,
)
    requires
        vec_in_range(*old(vel)),
        vec_in_range(pos),
        target_pos matches Some(t) ==> vec_in_range(t),
        fx_in_range(base_speed as int),
        params.wf(),
        0 <= dt <= FX_LIMIT,
    ensures
        *final(behavior) == *old(behavior),
        *final(vel) == spec_steer(*old(vel), pos, base_speed, target_pos, dt, params.view(), true),
        vec_in_range(*final(vel)),
{
    steer(vel, pos, base_speed, target_pos, dt, params, true)
}

/// Steer away from the resolved target (see [`spec_steer`]).
pub fn movement_flee(
    vel: &mut FxVec,
    pos: FxVec,
    base_speed: i64,
    target_pos: Option<FxVec>,
    behavior: &mut BehaviorRuntime,
    dt: i64,
    params: &MovementParams,
)
    requires
        vec_in_range(*old(vel)),
        vec_in_range(pos),
        target_pos matches Some(t) ==> vec_in_range(t),
        fx_in_range(base_speed as int),
        params.wf(),
        0 <= dt <= FX_LIMIT,
    ensures
        *final(behavior) == *old(behavior),
        *final(vel) == spec_steer(
            *old(vel),
            pos,
            base_speed,
            target_pos,
            dt,
            params.view(),
            false,
        ),
        vec_in_range(*final(vel)),
{
    steer(vel, pos, base_speed, target_pos, dt, params, false)
}

/// Shared steering step of seek and flee.
fn steer(
    vel: &mut FxVec,
    pos: FxVec,
    base_speed: i64,
    target_pos: Option<FxVec>,
    dt: i64,
    params: &MovementParams,
    toward: bool,
)
    requires
        vec_in_range(*old(vel)),
        vec_in_range(pos),
        target_pos matches Some(t) ==> vec_in_range(t),
        fx_in_range(base_speed as int),
        params.wf(),
        0 <= dt <= FX_LIMIT,
    ensures
        *final(vel) == spec_steer(
            *old(vel),
            pos,
            base_speed,
            target_pos,
            dt,
            params.view(),
            toward,
        ),
        vec_in_range(*final(vel)),
{
    let tp = match target_pos {
        Some(t) => t,
        None => {
            return ;
        },
    };
    let diff = if toward {
        FxVec { x: tp.x - pos.x, y: tp.y - pos.y }
    } else {
        FxVec { x: pos.x - tp.x, y: pos.y - tp.y }
    };
    let diff_sq = crate::geom::len_sq_u128(diff);
    if diff_sq > 100 {
        let desired = scale_to_length(diff, 1000);
        let vel_sq = crate::geom::len_sq_u128(*vel);
        let cur = if vel_sq > 100 {
            scale_to_length(*vel, 1000)
        } else {
            desired
        };
        let speed_key = "speed".to_owned();
        let accel_key = "accel".to_owned();
        let speed = params.get_or(&speed_key, base_speed);
        let accel = params.get_or(&accel_key, 12_000);
        let t = clamp_i64(crate::fixed::fx_scale(accel, dt, 1000), 0, 1000);
        let smooth = lerp_vec(cur, desired, t);
        let smooth_sq = crate::geom::len_sq_u128(smooth);
        if smooth_sq > 100 {
            *vel = scale_to_length(smooth, speed);
        }
    }
}

/// One dash step: tick the cooldown and the active-dash timer; when both
/// have run out and a target exists away from the actor, aim at it, start
/// the dash timer and arm the cooldown; while the dash timer runs, add the
/// dash velocity along the stored direction.
pub open spec fn spec_dash(
    vel: FxVec,
    pos: FxVec,
    target: Option<FxVec>,
    timer: i64,
    dir: FxVec,
    cooldown: i64,
    dt: i64,
    p: Seq<(Seq<char>, int)>,
) -> (FxVec, int, FxVec, int) {
    let dash_speed = value_of(p, "dash_speed"@, 1_100_000);
    let dash_duration = value_of(p, "dash_duration"@, 70);
    let dash_cooldown = value_of(p, "dash_cooldown"@, 500);
    let cd1 = if cooldown > 0 {
        if fx_clamp(cooldown - dt) >= 0 {
            fx_clamp(cooldown - dt)
        } else {
            0int
        }
    } else {
        cooldown as int
    };
    let tm1 = if timer > 0 {
        if fx_clamp(timer - dt) >= 0 {
            fx_clamp(timer - dt)
        } else {
            0int
        }
    } else {
        timer as int
    };
    let fire = tm1 <= 0 && cd1 <= 0 && (match target {
        Some(tp) => len_sq(
            FxVec { x: (tp.x - pos.x) as i64, y: (tp.y - pos.y) as i64 },
        ) > 100,
        None => false,
    });
    let dir2 = if fire {
        spec_scaled(
            FxVec {
                x: (target->0.x - pos.x) as i64,
                y: (target->0.y - pos.y) as i64,
            },
            1000,
        )
    } else {
        dir
    };
    let tm2 = if fire {
        dash_duration
    } else {
        tm1
    };
    let cd2 = if fire {
        dash_cooldown
    } else {
        cd1
    };
    let vel2 = if tm2 > 0 {
        FxVec {
            x: fx_clamp(vel.x + fx_mul_div(dir2.x as int, dash_speed, 1000)) as i64,
            y: fx_clamp(vel.y + fx_mul_div(dir2.y as int, dash_speed, 1000)) as i64,
        }
    } else {
        vel
    };
    (vel2, tm2, dir2, cd2)
}

/// Burst toward the resolved target (see [`spec_dash`]).
pub fn movement_dash_at_target(
    vel: &mut FxVec,
    pos: FxVec,
    _base_speed: i64,
    target_pos: Option<FxVec>,
    behavior: &mut BehaviorRuntime,
    dt: i64,
    params: &MovementParams,
)
    requires
        vec_in_range(*old(vel)),
        vec_in_range(pos),
        target_pos matches Some(t) ==> vec_in_range(t),
        old(behavior).wf(),
        params.wf(),
        params.view() == old(behavior).params.view(),
        0 <= dt <= FX_LIMIT,
    ensures
        final(behavior).name == old(behavior).name,
        final(behavior).kind == old(behavior).kind,
        final(behavior).params == old(behavior).params,
        final(behavior).wf(),
        vec_in_range(*final(vel)),
        ({
            let (v2, t2, d2, c2) = spec_dash(
                *old(vel),
                pos,
                target_pos,
                old(behavior).timer,
                old(behavior).dir,
                old(behavior).cooldown,
                dt,
                params.view(),
            );
            *final(vel) == v2 && final(behavior).timer == t2 && final(behavior).dir == d2
                && final(behavior).cooldown == c2
        }),
{
    let speed_key = "dash_speed".to_owned();
    let duration_key = "dash_duration".to_owned();
    let cooldown_key = "dash_cooldown".to_owned();
    let dash_speed = params.get_or(&speed_key, 1_100_000);
    let dash_duration = params.get_or(&duration_key, 70);
    let dash_cooldown = params.get_or(&cooldown_key, 500);
    if behavior.cooldown > 0 {
        let c = fx_sat_sub(behavior.cooldown, dt);
        behavior.cooldown = if c >= 0 {
            c
        } else {
            0
        };
    }
    if behavior.timer > 0 {
        let t = fx_sat_sub(behavior.timer, dt);
        behavior.timer = if t >= 0 {
            t
        } else {
            0
        };
    }
    if behavior.timer <= 0 && behavior.cooldown <= 0 {
        match target_pos {
            Some(tp) => {
                let diff = FxVec { x: tp.x - pos.x, y: tp.y - pos.y };
                let diff_sq = crate::geom::len_sq_u128(diff);
                if diff_sq > 100 {
                    behavior.dir = scale_to_length(diff, 1000);
                    behavior.timer = dash_duration;
                    behavior.cooldown = dash_cooldown;
                }
            },
            None => (),
        }
    }
    if behavior.timer > 0 {
        let dx = crate::fixed::fx_scale(behavior.dir.x, dash_speed, 1000);
        let dy = crate::fixed::fx_scale(behavior.dir.y, dash_speed, 1000);
        *vel = FxVec {
            x: crate::fixed::fx_sat_add(vel.x, dx),
            y: crate::fixed::fx_sat_add(vel.y, dy),
        };
    }
}

/// Whether runtime state `b` belongs to desired action `a`: same name and
/// same parameter mapping.
pub open spec fn runtime_fits_action(b: BehaviorRuntime, a: ActionView) -> bool {
    b.name@ == a.name && crate::table::same_mapping(b.params.view(), a.params)
}

/// The first index in `s`, from `i` on, whose runtime state belongs to
/// action `a`; `-1` when none does.
pub open spec fn find_match_from(s: Seq<BehaviorRuntime>, i: int, a: ActionView) -> int
    decreases s.len() - i,
{
    if i < 0 || i >= s.len() {
        -1
    } else if runtime_fits_action(s[i], a) {
        i
    } else {
        find_match_from(s, i + 1, a)
    }
}

/// Reconciliation of a runtime list against a desired-action list, from
/// position `i` on: each desired action reuses the first matching runtime
/// entry (which then cannot be reused again) or gets fresh zeroed state;
/// returns the new list and the unmatched leftovers.
pub open spec fn spec_sync(
    existing: Seq<BehaviorRuntime>,
    desired: Seq<SelectedAction>,
    i: int,
    reg: Seq<(Seq<char>, MovementKind)>,
) -> (Seq<BehaviorRuntime>, Seq<BehaviorRuntime>)
    decreases desired.len() - i,
{
    if i < 0 || i >= desired.len() {
        (Seq::empty(), existing)
    } else {
        let j = find_match_from(existing, 0, desired[i].view());
        if j >= 0 {
            let rest = spec_sync(existing.remove(j), desired, i + 1, reg);
            (seq![existing[j]] + rest.0, rest.1)
        } else {
            let fresh = BehaviorRuntime {
                name: desired[i].name,
                kind: reg_resolve(reg, desired[i].name@),
                params: desired[i].params,
                timer: 0,
                dir: FxVec { x: 0, y: 0 },
                cooldown: 0,
            };
            let rest = spec_sync(existing, desired, i + 1, reg);
            (seq![fresh] + rest.0, rest.1)
        }
    }
}

/// Two runtime entries agree up to parameter-table representation.
pub open spec fn runtime_matches(a: BehaviorRuntime, b: BehaviorRuntime) -> bool {
    a.name@ == b.name@ && a.params.view() == b.params.view() && a.kind == b.kind && a.timer
        == b.timer && a.dir == b.dir && a.cooldown == b.cooldown
}

/// Element-wise [`runtime_matches`].
pub open spec fn runtimes_match(a: Seq<BehaviorRuntime>, b: Seq<BehaviorRuntime>) -> bool {
    a.len() == b.len() && forall|i: int| 0 <= i < a.len() ==> runtime_matches(
        #[trigger] a[i],
        b[i],
    )
}

/// The first index in `existing` whose runtime belongs to `a`, or none.
fn find_runtime(existing: &Vec<BehaviorRuntime>, a: &SelectedAction) -> (r: Option<usize>)
    requires
        forall|i: int| 0 <= i < existing@.len() ==> (#[trigger] existing@[i]).wf(),
        a.wf(),
    ensures
        match r {
            Some(j) => j < existing@.len() && find_match_from(existing@, 0, a.view()) == j,
            None => find_match_from(existing@, 0, a.view()) == -1,
        },
{
    let ghost s = existing@;
    let mut i: usize = 0;
    while i < existing.len()
        invariant
            s == existing@,
            i <= s.len(),
            forall|j: int| 0 <= j < s.len() ==> (#[trigger] s[j]).wf(),
            a.wf(),
            find_match_from(s, i as int, a.view()) == find_match_from(s, 0, a.view()),
            forall|j: int| 0 <= j < i ==> !runtime_fits_action(#[trigger] s[j], a.view()),
        decreases s.len() - i,
    {
        if existing[i].name == a.name {
            if existing[i].params.same_as(&a.params) {
                return Some(i);
            }
        }
        i = i + 1;
    }
    None
}

/// Reconcile the actor's running behaviors against the freshly desired
/// actions: reuse runtime state for actions whose name and parameters are
/// unchanged, create zeroed state for the rest, and drop what no desired
/// action claims (see [`spec_sync`]).
pub fn sync_behaviors(
    existing: Vec<BehaviorRuntime>,
    desired: &Vec<SelectedAction>,
    registry: &MovementRegistry,
) -> (r: Vec<BehaviorRuntime>)
    requires
        forall|i: int| 0 <= i < existing@.len() ==> (#[trigger] existing@[i]).wf(),
        forall|i: int| 0 <= i < desired@.len() ==> (#[trigger] desired@[i]).wf(),
        registry.wf(),
    ensures
        runtimes_match(r@, spec_sync(existing@, desired@, 0, registry.view()).0),
        forall|i: int| 0 <= i < r@.len() ==> (#[trigger] r@[i]).wf(),
{
    let ghost existing0 = existing@;
    let ghost d = desired@;
    let ghost reg = registry.view();
    let ghost goal = spec_sync(existing0, d, 0, reg).0;
    let mut existing = existing;
    let mut synced: Vec<BehaviorRuntime> = Vec::new();
    let mut k: usize = 0;
    while k < desired.len()
        invariant
            d == desired@,
            reg == registry.view(),
            registry.wf(),
            k <= d.len(),
            forall|i: int| 0 <= i < existing@.len() ==> (#[trigger] existing@[i]).wf(),
            forall|i: int| 0 <= i < desired@.len() ==> (#[trigger] desired@[i]).wf(),
            forall|i: int| 0 <= i < synced@.len() ==> (#[trigger] synced@[i]).wf(),
            runtimes_match(synced@ + spec_sync(existing@, d, k as int, reg).0, goal),
        decreases d.len() - k,
    {
        let a = SelectedAction {
            name: desired[k].name.clone(),
            params: desired[k].params.duplicate(),
        };
        proof {
            assert(a.view() == d[k as int].view());
        }
        let ghost pre_existing = existing@;
        let ghost pre_synced = synced@;
        match find_runtime(&existing, &a) {
            Some(j) => {
                let moved = existing.remove(j);
                synced.push(moved);
                proof {
                    assert(synced@ =~= pre_synced.push(pre_existing[j as int]));
                    assert(spec_sync(pre_existing, d, k as int, reg).0 =~= seq![
                        pre_existing[j as int],
                    ] + spec_sync(existing@, d, k + 1, reg).0);
                    assert(synced@ + spec_sync(existing@, d, k + 1, reg).0 =~= pre_synced
                        + spec_sync(pre_existing, d, k as int, reg).0);
                }
            },
            None => {
                let kind = registry.resolve(&a.name);
                let fresh = BehaviorRuntime {
                    name: a.name,
                    kind,
                    params: a.params,
                    timer: 0,
                    dir: FxVec { x: 0, y: 0 },
                    cooldown: 0,
                };
                synced.push(fresh);
                proof {
                    let sfresh = BehaviorRuntime {
                        name: d[k as int].name,
                        kind: reg_resolve(reg, d[k as int].name@),
                        params: d[k as int].params,
                        timer: 0,
                        dir: FxVec { x: 0, y: 0 },
                        cooldown: 0,
                    };
                    assert(spec_sync(pre_existing, d, k as int, reg).0 =~= seq![sfresh]
                        + spec_sync(existing@, d, k + 1, reg).0);
                    assert(runtime_matches(synced@[pre_synced.len() as int], sfresh));
                    assert forall|i: int|
                        0 <= i < (synced@ + spec_sync(existing@, d, k + 1, reg).0).len() implies
                        runtime_matches(
                            #[trigger] (synced@ + spec_sync(existing@, d, k + 1, reg).0)[i],
                            goal[i],
                        ) by {
                        assert((pre_synced + spec_sync(pre_existing, d, k as int, reg).0).len()
                            == goal.len());
                        if i < pre_synced.len() {
                            assert((pre_synced + spec_sync(pre_existing, d, k as int, reg).0)[i]
                                == pre_synced[i]);
                        } else if i == pre_synced.len() {
                            assert((pre_synced + spec_sync(pre_existing, d, k as int, reg).0)[i]
                                == sfresh);
                        } else {
                            assert((pre_synced + spec_sync(pre_existing, d, k as int, reg).0)[i]
                                == spec_sync(existing@, d, k + 1, reg).0[i - pre_synced.len()
                                - 1]);
                            assert((synced@ + spec_sync(existing@, d, k + 1, reg).0)[i]
                                == spec_sync(existing@, d, k + 1, reg).0[i - pre_synced.len()
                                - 1]);
                        }
                    }
                    assert((synced@ + spec_sync(existing@, d, k + 1, reg).0).len() == goal.len());
                }
            },
        }
        k = k + 1;
    }
    proof {
        assert(synced@ + spec_sync(existing@, d, d.len() as int, reg).0 =~= synced@);
    }
    synced
}

/// The desired actions whose names the registry knows, from `i` on.
pub open spec fn spec_filter_registered(
    s: Seq<SelectedAction>,
    i: int,
    reg: Seq<(Seq<char>, MovementKind)>,
) -> Seq<SelectedAction>
    decreases s.len() - i,
{
    if i < 0 || i >= s.len() {
        Seq::empty()
    } else if reg_has(reg, s[i].name@) {
        seq![s[i]] + spec_filter_registered(s, i + 1, reg)
    } else {
        spec_filter_registered(s, i + 1, reg)
    }
}

/// Drop desired actions with no registered movement routine; when that
/// leaves nothing, substitute the single built-in idle action.
pub fn filter_registered_or_idle(
    actions: Vec<SelectedAction>,
    registry: &MovementRegistry,
) -> (r: Vec<SelectedAction>)
    requires
        forall|i: int| 0 <= i < actions@.len() ==> (#[trigger] actions@[i]).wf(),
        registry.wf(),
    ensures
        forall|i: int| 0 <= i < r@.len() ==> (#[trigger] r@[i]).wf(),
        spec_filter_registered(actions@, 0, registry.view()).len() > 0 ==> r@ == (
        spec_filter_registered(actions@, 0, registry.view())),
        spec_filter_registered(actions@, 0, registry.view()).len() == 0 ==> r@.len() == 1
            && r@[0].name@ == "idle"@ && r@[0].params.view() == Seq::<(Seq<char>, int)>::empty(),
{
    let ghost s = actions@;
    let ghost reg = registry.view();
    let ghost target = spec_filter_registered(s, 0, reg);
    let mut out: Vec<SelectedAction> = Vec::new();
    let mut i: usize = 0;
    let n = actions.len();
    let mut actions = actions;
    proof {
        assert(target =~= out@ + spec_filter_registered(s, 0, reg));
    }
    while i < n
        invariant
            n == s.len(),
            i <= n,
            registry.wf(),
            reg == registry.view(),
            actions@ =~= s.subrange(i as int, s.len() as int),
            forall|j: int| 0 <= j < s.len() ==> (#[trigger] s[j]).wf(),
            forall|j: int| 0 <= j < out@.len() ==> (#[trigger] out@[j]).wf(),
            target =~= out@ + spec_filter_registered(s, i as int, reg),
        decreases n - i,
    {
        let a = actions.remove(0);
        proof {
            assert(a == s[i as int]);
            assert(actions@ =~= s.subrange(i + 1, s.len() as int));
        }
        if registry.has(&a.name) {
            out.push(a);
        }
        proof {
            assert(target =~= out@ + spec_filter_registered(s, i + 1, reg));
        }
        i = i + 1;
    }
    proof {
        assert(target =~= out@);
    }
    if out.len() == 0 {
        let idle = SelectedAction { name: "idle".to_owned(), params: MovementParams::new() };
        out.push(idle);
    }
    out
}

/// The name of the first `Action` node (depth first, left to right) whose
/// name the registry knows; the initial behavior an actor spawns with.
pub open spec fn spec_first_action(
    node: BehaviorNode,
    reg: Seq<(Seq<char>, MovementKind)>,
) -> Option<Seq<char>>
    decreases node, 0int,
{
    match node {
        BehaviorNode::Action { name, multiple, params, extra } => if reg_has(reg, name@) {
            Some(name@)
        } else {
            None
        },
        BehaviorNode::Condition { name, value } => None,
        BehaviorNode::Selector { children } => spec_first_action_seq(children@, 0, reg),
        BehaviorNode::Sequence { children } => spec_first_action_seq(children@, 0, reg),
    }
}

/// The first registered action name among `s`, from `i` on.
pub open spec fn spec_first_action_seq(
    s: Seq<BehaviorNode>,
    i: int,
    reg: Seq<(Seq<char>, MovementKind)>,
) -> Option<Seq<char>>
    decreases s, s.len() - i,
{
    if i < 0 || i >= s.len() {
        None
    } else {
        match spec_first_action(s[i], reg) {
            Some(n) => Some(n),
            None => spec_first_action_seq(s, i + 1, reg),
        }
    }
}

/// Find the first action name in a tree that the registry knows (see
/// [`spec_first_action`]).
pub fn first_action_with_registry(node: &BehaviorNode, registry: &MovementRegistry) -> (r: Option<
    String,
>)
    requires
        registry.wf(),
    ensures
        (match r {
            Some(n) => Some(n@),
            None => None::<Seq<char>>,
        }) == spec_first_action(*node, registry.view()),
    decreases *node, 0int,
{
    match node {
        BehaviorNode::Action { name, multiple, params, extra } => {
            if registry.has(name) {
                Some(name.clone())
            } else {
                None
            }
        },
        BehaviorNode::Condition { name, value } => None,
        BehaviorNode::Selector { children } => first_action_in_children(children, 0, registry),
        BehaviorNode::Sequence { children } => first_action_in_children(children, 0, registry),
    }
}

/// Scan a child list for the first registered action name.
fn first_action_in_children(
    children: &Vec<BehaviorNode>,
    i: usize,
    registry: &MovementRegistry,
) -> (r: Option<String>)
    requires
        registry.wf(),
    ensures
        (match r {
            Some(n) => Some(n@),
            None => None::<Seq<char>>,
        }) == spec_first_action_seq(children@, i as int, registry.view()),
    decreases children@, children@.len() - i,
{
    if i >= children.len() {
        return None;
    }
    match first_action_with_registry(&children[i], registry) {
        Some(n) => Some(n),
        None => first_action_in_children(children, i + 1, registry),
    }
}

/// The views of the registered members of a desired-action list, from `i`
/// on.
pub open spec fn spec_filter_views(
    s: Seq<ActionView>,
    i: int,
    reg: Seq<(Seq<char>, MovementKind)>,
) -> Seq<ActionView>
    decreases s.len() - i,
{
    if i < 0 || i >= s.len() {
        Seq::empty()
    } else if reg_has(reg, s[i].name) {
        seq![s[i]] + spec_filter_views(s, i + 1, reg)
    } else {
        spec_filter_views(s, i + 1, reg)
    }
}

/// Filtering a desired-action list commutes with taking views.
pub proof fn lemma_filter_views(
    s: Seq<SelectedAction>,
    i: int,
    reg: Seq<(Seq<char>, MovementKind)>,
)
    requires
        0 <= i,
    ensures
        crate::behavior::views_of(spec_filter_registered(s, i, reg)) == spec_filter_views(
            crate::behavior::views_of(s),
            i,
            reg,
        ),
    decreases s.len() - i,
{
    let vs = crate::behavior::views_of(s);
    if i < s.len() {
        lemma_filter_views(s, i + 1, reg);
        if reg_has(reg, s[i].name@) {
            assert(crate::behavior::views_of(seq![s[i]] + spec_filter_registered(s, i + 1, reg))
                =~= seq![vs[i]] + crate::behavior::views_of(spec_filter_registered(s, i + 1, reg)));
        }
    } else {
        assert(crate::behavior::views_of(spec_filter_registered(s, i, reg))
            =~= Seq::<ActionView>::empty());
    }
}

/// Reconciliation keeps the desired identities in order: entry `k` of the
/// synced list carries the name and (up to entry order) the parameter
/// table of desired action `i + k`.
pub proof fn lemma_sync_identity(
    existing: Seq<BehaviorRuntime>,
    desired: Seq<SelectedAction>,
    i: int,
    reg: Seq<(Seq<char>, MovementKind)>,
)
    requires
        0 <= i <= desired.len(),
        forall|k: int| 0 <= k < desired.len() ==> (#[trigger] desired[k]).wf(),
    ensures
        ({
            let r = spec_sync(existing, desired, i, reg).0;
            &&& r.len() == desired.len() - i
            &&& forall|k: int|
                0 <= k < r.len() ==> (#[trigger] r[k]).name@ == desired[i + k].name@
                    && crate::table::same_mapping(r[k].params.view(), desired[i + k].params.view())
        }),
    decreases desired.len() - i,
{
    if i < desired.len() {
        let r = spec_sync(existing, desired, i, reg).0;
        let j = find_match_from(existing, 0, desired[i].view());
        if j >= 0 {
            lemma_find_match_valid(existing, 0, desired[i].view());
            lemma_sync_identity(existing.remove(j), desired, i + 1, reg);
            assert(runtime_fits_action(existing[j], desired[i].view()));
            assert(r[0] == existing[j]);
            assert forall|k: int| 0 <= k < r.len() implies (#[trigger] r[k]).name@ == desired[i
                + k].name@ && crate::table::same_mapping(
                r[k].params.view(),
                desired[i + k].params.view(),
            ) by {
                if k > 0 {
                    assert(r[k] == spec_sync(existing.remove(j), desired, i + 1, reg).0[k - 1]);
                }
            }
        } else {
            lemma_sync_identity(existing, desired, i + 1, reg);
            crate::behavior::lemma_same_action_refl(desired[i].view());
            assert forall|k: int| 0 <= k < r.len() implies (#[trigger] r[k]).name@ == desired[i
                + k].name@ && crate::table::same_mapping(
                r[k].params.view(),
                desired[i + k].params.view(),
            ) by {
                if k > 0 {
                    assert(r[k] == spec_sync(existing, desired, i + 1, reg).0[k - 1]);
                }
            }
        }
    }
}

/// A non-negative match index points at a fitting runtime entry.
pub proof fn lemma_find_match_valid(s: Seq<BehaviorRuntime>, i: int, a: ActionView)
    requires
        0 <= i,
        find_match_from(s, i, a) >= 0,
    ensures
        i <= find_match_from(s, i, a) < s.len(),
        runtime_fits_action(s[find_match_from(s, i, a)], a),
    decreases s.len() - i,
{
    if i < s.len() {
        if !runtime_fits_action(s[i], a) {
            lemma_find_match_valid(s, i + 1, a);
        }
    }
}

/// A found first action name is a registered one.
pub proof fn lemma_first_action_registered(
    node: BehaviorNode,
    reg: Seq<(Seq<char>, MovementKind)>,
)
    ensures
        spec_first_action(node, reg) matches Some(n) ==> reg_has(reg, n),
    decreases node, 0int,
{
    match node {
        BehaviorNode::Action { .. } => {},
        BehaviorNode::Condition { .. } => {},
        BehaviorNode::Selector { children } => {
            lemma_first_action_seq_registered(children@, 0, reg);
        },
        BehaviorNode::Sequence { children } => {
            lemma_first_action_seq_registered(children@, 0, reg);
        },
    }
}

/// A found first action name among a child list is a registered one.
pub proof fn lemma_first_action_seq_registered(
    s: Seq<BehaviorNode>,
    i: int,
    reg: Seq<(Seq<char>, MovementKind)>,
)
    ensures
        spec_first_action_seq(s, i, reg) matches Some(n) ==> reg_has(reg, n),
    decreases s, s.len() - i,
{
    if 0 <= i < s.len() {
        lemma_first_action_registered(s[i], reg);
        lemma_first_action_seq_registered(s, i + 1, reg);
    }
}

/// Specification-level image of one behavior's runtime state.
pub ghost struct RuntimeView {
    pub name: Seq<char>,
    pub params: Seq<(Seq<char>, int)>,
    pub kind: MovementKind,
    pub timer: i64,
    pub dir: FxVec,
    pub cooldown: i64,
}

impl BehaviorRuntime {
    /// The runtime state as its specification image.
    pub open spec fn view(self) -> RuntimeView {
        RuntimeView {
            name: self.name@,
            params: self.params.view(),
            kind: self.kind,
            timer: self.timer,
            dir: self.dir,
            cooldown: self.cooldown,
        }
    }
}

/// The specification images of a runtime list.
pub open spec fn runtime_views(s: Seq<BehaviorRuntime>) -> Seq<RuntimeView> {
    s.map_values(|b: BehaviorRuntime| b.view())
}

/// Reconciliation at the view level (see [`spec_sync`]): each desired
/// action reuses the first matching runtime entry with its timer,
/// direction and cooldown intact, or gets zeroed state with the
/// registry-resolved routine.
pub open spec fn spec_sync_views(
    existing: Seq<BehaviorRuntime>,
    dv: Seq<ActionView>,
    i: int,
    reg: Seq<(Seq<char>, MovementKind)>,
) -> Seq<RuntimeView>
    decreases dv.len() - i,
{
    if i < 0 || i >= dv.len() {
        Seq::empty()
    } else {
        let j = find_match_from(existing, 0, dv[i]);
        if j >= 0 {
            seq![existing[j].view()] + spec_sync_views(existing.remove(j), dv, i + 1, reg)
        } else {
            seq![
                RuntimeView {
                    name: dv[i].name,
                    params: dv[i].params,
                    kind: reg_resolve(reg, dv[i].name),
                    timer: 0,
                    dir: FxVec { x: 0, y: 0 },
                    cooldown: 0,
                },
            ] + spec_sync_views(existing, dv, i + 1, reg)
        }
    }
}

/// Reconciliation commutes with taking views.
pub proof fn lemma_sync_views(
    existing: Seq<BehaviorRuntime>,
    desired: Seq<SelectedAction>,
    i: int,
    reg: Seq<(Seq<char>, MovementKind)>,
)
    requires
        0 <= i <= desired.len(),
    ensures
        runtime_views(spec_sync(existing, desired, i, reg).0) == spec_sync_views(
            existing,
            crate::behavior::views_of(desired),
            i,
            reg,
        ),
    decreases desired.len() - i,
{
    let dv = crate::behavior::views_of(desired);
    if i < desired.len() {
        assert(dv[i] == desired[i].view());
        let j = find_match_from(existing, 0, desired[i].view());
        if j >= 0 {
            lemma_sync_views(existing.remove(j), desired, i + 1, reg);
            assert(runtime_views(spec_sync(existing, desired, i, reg).0) =~= seq![
                existing[j].view(),
            ] + runtime_views(spec_sync(existing.remove(j), desired, i + 1, reg).0));
        } else {
            lemma_sync_views(existing, desired, i + 1, reg);
            let fresh = BehaviorRuntime {
                name: desired[i].name,
                kind: reg_resolve(reg, desired[i].name@),
                params: desired[i].params,
                timer: 0,
                dir: FxVec { x: 0, y: 0 },
                cooldown: 0,
            };
            assert(runtime_views(spec_sync(existing, desired, i, reg).0) =~= seq![fresh.view()]
                + runtime_views(spec_sync(existing, desired, i + 1, reg).0));
            assert(fresh.view() == RuntimeView {
                name: dv[i].name,
                params: dv[i].params,
                kind: reg_resolve(reg, dv[i].name),
                timer: 0,
                dir: FxVec { x: 0, y: 0 },
                cooldown: 0,
            });
        }
    } else {
        assert(runtime_views(spec_sync(existing, desired, i, reg).0) =~= Seq::<
            RuntimeView,
        >::empty());
    }
}

/// One movement-routine step on one behavior: the velocity the routine
/// leaves and the advanced runtime state. The identity fields never
/// change; idling, seeking and fleeing leave the runtime state untouched.
pub open spec fn spec_run_one(
    vel: FxVec,
    pos: FxVec,
    speed: i64,
    tpos: Option<FxVec>,
    b: RuntimeView,
    dt: i64,
    rnd: u32,
) -> (FxVec, RuntimeView) {
    match b.kind {
        MovementKind::Idle => (FxVec { x: 0, y: 0 }, b),
        MovementKind::Wander => {
            let w = spec_wander(vel, speed, b.timer, b.dir, dt, b.params, rnd);
            (
                w.0,
                RuntimeView {
                    name: b.name,
                    params: b.params,
                    kind: b.kind,
                    timer: w.1 as i64,
                    dir: w.2,
                    cooldown: b.cooldown,
                },
            )
        },
        MovementKind::Seek => (spec_steer(vel, pos, speed, tpos, dt, b.params, true), b),
        MovementKind::Flee => (spec_steer(vel, pos, speed, tpos, dt, b.params, false), b),
        MovementKind::Dash => {
            let d = spec_dash(vel, pos, tpos, b.timer, b.dir, b.cooldown, dt, b.params);
            (
                d.0,
                RuntimeView {
                    name: b.name,
                    params: b.params,
                    kind: b.kind,
                    timer: d.1 as i64,
                    dir: d.2,
                    cooldown: d.3 as i64,
                },
            )
        },
    }
}

/// The first `i` behaviors run in order, each reading the velocity the
/// previous one left: the resulting velocity and the advanced states, with
/// one random draw per behavior.
pub open spec fn spec_run_prefix(
    vel0: FxVec,
    pos: FxVec,
    speed: i64,
    tpos: Option<FxVec>,
    bs: Seq<RuntimeView>,
    dt: i64,
    rnds: Seq<u32>,
    i: int,
) -> (FxVec, Seq<RuntimeView>)
    decreases i,
{
    if i <= 0 {
        (vel0, Seq::empty())
    } else {
        let prev = spec_run_prefix(vel0, pos, speed, tpos, bs, dt, rnds, i - 1);
        let step = spec_run_one(prev.0, pos, speed, tpos, bs[i - 1], dt, rnds[i - 1]);
        (step.0, prev.1.push(step.1))
    }
}

/// A prefix run reads only the first `i` draws: appending one more draw
/// changes nothing.
pub proof fn lemma_run_prefix_extend(
    vel0: FxVec,
    pos: FxVec,
    speed: i64,
    tpos: Option<FxVec>,
    bs: Seq<RuntimeView>,
    dt: i64,
    rnds: Seq<u32>,
    i: int,
    r: u32,
)
    requires
        0 <= i <= rnds.len(),
    ensures
        spec_run_prefix(vel0, pos, speed, tpos, bs, dt, rnds.push(r), i) == spec_run_prefix(
            vel0,
            pos,
            speed,
            tpos,
            bs,
            dt,
            rnds,
            i,
        ),
    decreases i,
{
    if i > 0 {
        lemma_run_prefix_extend(vel0, pos, speed, tpos, bs, dt, rnds, i - 1, r);
        assert(rnds.push(r)[i - 1] == rnds[i - 1]);
    }
}

/// Under unique names, two registry entries with the same name are the same
/// entry.
pub proof fn lemma_reg_unique_index(s: Seq<(Seq<char>, MovementKind)>, i: int, j: int)
    requires
        reg_unique(s),
        0 <= i < s.len(),
        0 <= j < s.len(),
        s[i].0 == s[j].0,
    ensures
        i == j,
{
    if i < j {
        assert(s[i].0 != s[j].0);
    } else if j < i {
        assert(s[j].0 != s[i].0);
    }
}

} // verus!
