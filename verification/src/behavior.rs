//! Declarative behavior trees and their evaluation.
//!
//! A tree is walked against one actor's current state and yields an ordered
//! list of distinct desired actions: a primary action (later `Sequence`
//! children override earlier ones; the first successful `Selector` child
//! wins) plus every "fires alongside" action of nodes marked `multiple`,
//! deduplicated by name and parameter table.

use vstd::prelude::*;
use crate::geom::{FxVec, dist_sq, vec_in_range, dist_sq_u128};
use crate::fixed::{fx_in_range, fx_mul_div, fx_scale, FX_LIMIT};
use crate::table::{MovementParams, has_key, key_index, value_of, same_mapping, unique_keys};

verus! {

/// One node of a behavior tree.
pub enum BehaviorNode {
    /// Succeeds when any child succeeds; the first success provides the
    /// primary action, every success contributes its side actions.
    Selector { children: Vec<BehaviorNode> },
    /// Fails at the first failing child; otherwise the last child's action
    /// wins and side actions accumulate.
    Sequence { children: Vec<BehaviorNode> },
    /// A named predicate over the actor's state; produces no action.
    Condition { name: String, value: Option<i64> },
    /// Always succeeds and produces itself; when `multiple` is set it also
    /// fires alongside whatever else was chosen.
    Action { name: String, multiple: bool, params: MovementParams, extra: MovementParams },
}

/// A desired action produced by evaluation: a name and its resolved
/// parameter table.
pub struct SelectedAction {
    pub name: String,
    pub params: MovementParams,
}

/// Specification-level image of a selected action.
pub ghost struct ActionView {
    pub name: Seq<char>,
    pub params: Seq<(Seq<char>, int)>,
}

impl SelectedAction {
    /// The action as its specification image.
    pub open spec fn view(self) -> ActionView {
        ActionView { name: self.name@, params: self.params.view() }
    }

    /// Well-formed: the parameter table is.
    pub open spec fn wf(self) -> bool {
        self.params.wf()
    }
}

/// Specification-level result of evaluating one node.
pub ghost struct EvalResult {
    /// The chosen action, if any.
    pub primary: Option<ActionView>,
    /// Actions that fire alongside the primary one, in evaluation order.
    pub extra: Seq<ActionView>,
    /// Whether the node succeeded.
    pub ok: bool,
}

/// What condition evaluation may read of the actor and frame: its position,
/// its resolved target's position, and the view height that scales ranges.
#[derive(Clone, Copy)]
pub struct CondEnv {
    pub pos: FxVec,
    pub target_pos: Option<FxVec>,
    pub view_height: i64,
}

/// Well-formed evaluation environment.
pub open spec fn env_wf(env: CondEnv) -> bool {
    vec_in_range(env.pos) && fx_in_range(env.view_height as int) && (env.target_pos matches Some(t)
        ==> vec_in_range(t))
}

/// One overwrite step on a parameter table view.
pub open spec fn put_spec(s: Seq<(Seq<char>, int)>, k: Seq<char>, v: int) -> Seq<
    (Seq<char>, int),
> {
    if has_key(s, k) {
        s.update(key_index(s, k), (k, v))
    } else {
        s.push((k, v))
    }
}

/// The view of `p` after overwriting it with every entry of `e` in order.
pub open spec fn merged_params(p: Seq<(Seq<char>, int)>, e: Seq<(Seq<char>, int)>) -> Seq<
    (Seq<char>, int),
>
    decreases e.len(),
{
    if e.len() == 0 {
        p
    } else {
        put_spec(merged_params(p, e.drop_last()), e.last().0, e.last().1)
    }
}

/// Dash actions authored with a plain `cooldown` parameter also get it under
/// `dash_cooldown`, unless that key was given explicitly.
pub open spec fn with_dash_alias(s: Seq<(Seq<char>, int)>) -> Seq<(Seq<char>, int)> {
    if has_key(s, "cooldown"@) && !has_key(s, "dash_cooldown"@) {
        s.push(("dash_cooldown"@, value_of(s, "cooldown"@, 0)))
    } else {
        s
    }
}

/// The parameter table an `Action` node resolves to: its own parameters,
/// overwritten by its numeric passthrough fields, with the dash-cooldown
/// alias applied.
pub open spec fn action_params_spec(p: Seq<(Seq<char>, int)>, e: Seq<(Seq<char>, int)>) -> Seq<
    (Seq<char>, int),
> {
    with_dash_alias(merged_params(p, e))
}

/// Resolve an `Action` node's parameter table (see [`action_params_spec`]).
pub fn action_params(params: &MovementParams, extra: &MovementParams) -> (r: MovementParams)
    requires
        params.wf(),
        extra.wf(),
    ensures
        r.wf(),
        r.view() == action_params_spec(params.view(), extra.view()),
{
    let ghost e = extra.view();
    let mut merged = params.duplicate();
    let mut i: usize = 0;
    while i < extra.len()
        invariant
            merged.wf(),
            extra.wf(),
            e == extra.view(),
            i <= e.len(),
            merged.view() == merged_params(params.view(), e.subrange(0, i as int)),
        decreases e.len() - i,
    {
        let (k, v) = extra.entry_at(i);
        proof {
            assert(fx_in_range(e[i as int].1));
        }
        merged.put(k, v);
        proof {
            let pre = e.subrange(0, i as int);
            let post = e.subrange(0, i + 1);
            assert(post.drop_last() =~= pre);
            assert(post.last() == e[i as int]);
        }
        i = i + 1;
    }
    proof {
        assert(e.subrange(0, e.len() as int) =~= e);
    }
    let cooldown_key = "cooldown".to_owned();
    let alias_key = "dash_cooldown".to_owned();
    if merged.contains(&cooldown_key) {
        let v = merged.get_or(&cooldown_key, 0);
        merged.put_default(alias_key, v);
    }
    merged
}

/// The built-in `target_in_range` predicate: true iff the actor has a
/// resolved target within `value x view-height` thousandths (defaulting to
/// one view height); any other condition name is false.
pub open spec fn spec_cond(name: Seq<char>, value: Option<i64>, env: CondEnv) -> bool {
    if name == "target_in_range"@ {
        match env.target_pos {
            None => false,
            Some(t) => {
                let v = match value {
                    Some(x) => if x >= 0 {
                        x as int
                    } else {
                        0int
                    },
                    None => 1000int,
                };
                let vh = if env.view_height >= 1000 {
                    env.view_height as int
                } else {
                    1000int
                };
                let range = fx_mul_div(v, vh, 1000);
                dist_sq(env.pos, t) <= range * range
            },
        }
    } else {
        false
    }
}

/// Evaluate a named condition (see [`spec_cond`]).
pub fn eval_condition(name: &String, value: Option<i64>, env: &CondEnv) -> (r: bool)
    requires
        env_wf(*env),
        value matches Some(v) ==> fx_in_range(v as int),
    ensures
        r == spec_cond(name@, value, *env),
{
    let in_range_name = "target_in_range".to_owned();
    if *name == in_range_name {
        match env.target_pos {
            None => false,
            Some(t) => {
                let v: i64 = match value {
                    Some(x) => if x >= 0 {
                        x
                    } else {
                        0
                    },
                    None => 1000,
                };
                let vh: i64 = if env.view_height >= 1000 {
                    env.view_height
                } else {
                    1000
                };
                let range = fx_scale(v, vh, 1000);
                proof {
                    assert(v * vh >= 0 && (range >= 0 ==> range * range <= (FX_LIMIT as int) * (
                    FX_LIMIT as int))) by (nonlinear_arith)
                        requires
                            v >= 0,
                            vh >= 0,
                            -FX_LIMIT <= range <= FX_LIMIT,
                    ;
                    assert(range >= 0) by {
                        assert(crate::fixed::trunc_div(v * vh, 1000) >= 0) by (nonlinear_arith)
                            requires
                                v * vh >= 0,
                        ;
                    }
                }
                let d = dist_sq_u128(env.pos, t);
                d <= (range as u128) * (range as u128)
            },
        }
    } else {
        false
    }
}

/// Well-formed tree: every parameter table has unique keys and in-range
/// values, and every condition parameter is in range.
pub open spec fn node_wf(node: BehaviorNode) -> bool
    decreases node, 0int,
{
    match node {
        BehaviorNode::Selector { children } => nodes_wf_from(children@, 0),
        BehaviorNode::Sequence { children } => nodes_wf_from(children@, 0),
        BehaviorNode::Condition { name, value } => value matches Some(v) ==> fx_in_range(v as int),
        BehaviorNode::Action { name, multiple, params, extra } => params.wf() && extra.wf(),
    }
}

/// All nodes of `s` from position `i` on are well-formed.
pub open spec fn nodes_wf_from(s: Seq<BehaviorNode>, i: int) -> bool
    decreases s, s.len() - i,
{
    i >= s.len() || (0 <= i && node_wf(s[i]) && nodes_wf_from(s, i + 1))
}

/// Evaluation of one node, specified.
pub open spec fn spec_eval(node: BehaviorNode, env: CondEnv) -> EvalResult
    decreases node, 0int,
{
    match node {
        BehaviorNode::Selector { children } => spec_eval_selector(children@, 0, env),
        BehaviorNode::Sequence { children } => spec_eval_sequence(children@, 0, env),
        BehaviorNode::Condition { name, value } => EvalResult {
            primary: None,
            extra: Seq::empty(),
            ok: spec_cond(name@, value, env),
        },
        BehaviorNode::Action { name, multiple, params, extra } => {
            let a = ActionView { name: name@, params: action_params_spec(params.view(), extra.view()) };
            EvalResult {
                primary: Some(a),
                extra: if multiple {
                    seq![a]
                } else {
                    Seq::empty()
                },
                ok: true,
            }
        },
    }
}

/// Evaluation of a `Sequence`'s children from position `i` on: the first
/// failure discards everything; otherwise later primaries override earlier
/// ones and side actions accumulate in order.
pub open spec fn spec_eval_sequence(s: Seq<BehaviorNode>, i: int, env: CondEnv) -> EvalResult
    decreases s, s.len() - i,
{
    if i < 0 || i >= s.len() {
        EvalResult { primary: None, extra: Seq::empty(), ok: true }
    } else {
        let head = spec_eval(s[i], env);
        if !head.ok {
            EvalResult { primary: None, extra: Seq::empty(), ok: false }
        } else {
            let rest = spec_eval_sequence(s, i + 1, env);
            if !rest.ok {
                EvalResult { primary: None, extra: Seq::empty(), ok: false }
            } else {
                EvalResult {
                    primary: if rest.primary is Some {
                        rest.primary
                    } else {
                        head.primary
                    },
                    extra: head.extra + rest.extra,
                    ok: true,
                }
            }
        }
    }
}

/// Evaluation of a `Selector`'s children from position `i` on: success when
/// any child succeeds; the first successful child carrying an action
/// provides the primary; every successful child contributes side actions.
pub open spec fn spec_eval_selector(s: Seq<BehaviorNode>, i: int, env: CondEnv) -> EvalResult
    decreases s, s.len() - i,
{
    if i < 0 || i >= s.len() {
        EvalResult { primary: None, extra: Seq::empty(), ok: false }
    } else {
        let head = spec_eval(s[i], env);
        let rest = spec_eval_selector(s, i + 1, env);
        EvalResult {
            primary: if head.ok && head.primary is Some {
                head.primary
            } else {
                rest.primary
            },
            extra: (if head.ok {
                head.extra
            } else {
                Seq::empty()
            }) + rest.extra,
            ok: head.ok || rest.ok,
        }
    }
}

/// Exec results match a specified [`EvalResult`].
pub open spec fn eval_matches(
    primary: Option<SelectedAction>,
    extra: Seq<SelectedAction>,
    ok: bool,
    r: EvalResult,
) -> bool {
    &&& ok == r.ok
    &&& match (primary, r.primary) {
        (Some(a), Some(v)) => a.view() == v && a.wf(),
        (None, None) => true,
        _ => false,
    }
    &&& extra.len() == r.extra.len()
    &&& forall|i: int| 0 <= i < extra.len() ==> (#[trigger] extra[i]).view() == r.extra[i]
        && extra[i].wf()
}

/// Evaluate one node against an actor's state.
pub fn eval_behavior(node: &BehaviorNode, env: &CondEnv) -> (r: (
    Option<SelectedAction>,
    Vec<SelectedAction>,
    bool,
))
    requires
        node_wf(*node),
        env_wf(*env),
    ensures
        eval_matches(r.0, r.1@, r.2, spec_eval(*node, *env)),
    decreases *node, 0int,
{
    match node {
        BehaviorNode::Action { name, multiple, params, extra } => {
            let p = action_params(params, extra);
            let mut multi: Vec<SelectedAction> = Vec::new();
            if *multiple {
                multi.push(SelectedAction { name: name.clone(), params: p.duplicate() });
            }
            let primary = SelectedAction { name: name.clone(), params: p };
            (Some(primary), multi, true)
        },
        BehaviorNode::Condition { name, value } => {
            let ok = eval_condition(name, *value, env);
            (None, Vec::new(), ok)
        },
        BehaviorNode::Sequence { children } => {
            let r = eval_sequence_from(children, 0, env);
            r
        },
        BehaviorNode::Selector { children } => {
            let r = eval_selector_from(children, 0, env);
            r
        },
    }
}

/// Evaluate the tail of a `Sequence`'s child list.
fn eval_sequence_from(children: &Vec<BehaviorNode>, i: usize, env: &CondEnv) -> (r: (
    Option<SelectedAction>,
    Vec<SelectedAction>,
    bool,
))
    requires
        nodes_wf_from(children@, i as int),
        env_wf(*env),
    ensures
        eval_matches(r.0, r.1@, r.2, spec_eval_sequence(children@, i as int, *env)),
    decreases children@, children@.len() - i,
{
    if i >= children.len() {
        return (None, Vec::new(), true);
    }
    let head = eval_behavior(&children[i], env);
    if !head.2 {
        return (None, Vec::new(), false);
    }
    let rest = eval_sequence_from(children, i + 1, env);
    if !rest.2 {
        return (None, Vec::new(), false);
    }
    let primary = match rest.0 {
        Some(a) => Some(a),
        None => head.0,
    };
    let mut extra = head.1;
    let mut more = rest.1;
    let ghost he = spec_eval(children@[i as int], *env).extra;
    let ghost re = spec_eval_sequence(children@, i + 1, *env).extra;
    let mut k: usize = 0;
    let more_len = more.len();
    while k < more_len
        invariant
            more_len == more.len(),
            k <= more_len,
            extra@.len() == he.len() + k,
            forall|j: int| 0 <= j < he.len() ==> (#[trigger] extra@[j]).view() == he[j]
                && extra@[j].wf(),
            forall|j: int| 0 <= j < k ==> (#[trigger] extra@[he.len() + j]).view() == re[j]
                && extra@[he.len() + j].wf(),
            forall|j: int| 0 <= j < more_len ==> (#[trigger] more@[j]).view() == re[j]
                && more@[j].wf(),
        decreases more_len - k,
    {
        let a = SelectedAction {
            name: more[k].name.clone(),
            params: more[k].params.duplicate(),
        };
        extra.push(a);
        k = k + 1;
    }
    proof {
        assert forall|j: int| 0 <= j < extra@.len() implies (#[trigger] extra@[j]).view() == (he
            + re)[j] && extra@[j].wf() by {
            if j >= he.len() {
                assert(extra@[he.len() + (j - he.len())].view() == re[j - he.len()]);
            }
        }
    }
    (primary, extra, true)
}

/// Evaluate the tail of a `Selector`'s child list.
fn eval_selector_from(children: &Vec<BehaviorNode>, i: usize, env: &CondEnv) -> (r: (
    Option<SelectedAction>,
    Vec<SelectedAction>,
    bool,
))
    requires
        nodes_wf_from(children@, i as int),
        env_wf(*env),
    ensures
        eval_matches(r.0, r.1@, r.2, spec_eval_selector(children@, i as int, *env)),
    decreases children@, children@.len() - i,
{
    if i >= children.len() {
        return (None, Vec::new(), false);
    }
    let head = eval_behavior(&children[i], env);
    let rest = eval_selector_from(children, i + 1, env);
    let primary = if head.2 && head.0.is_some() {
        head.0
    } else {
        rest.0
    };
    let mut extra = if head.2 {
        head.1
    } else {
        Vec::new()
    };
    let more = rest.1;
    let ghost he = if spec_eval(children@[i as int], *env).ok {
        spec_eval(children@[i as int], *env).extra
    } else {
        Seq::<ActionView>::empty()
    };
    let ghost re = spec_eval_selector(children@, i + 1, *env).extra;
    let mut k: usize = 0;
    let more_len = more.len();
    while k < more_len
        invariant
            more_len == more.len(),
            k <= more_len,
            extra@.len() == he.len() + k,
            forall|j: int| 0 <= j < he.len() ==> (#[trigger] extra@[j]).view() == he[j]
                && extra@[j].wf(),
            forall|j: int| 0 <= j < k ==> (#[trigger] extra@[he.len() + j]).view() == re[j]
                && extra@[he.len() + j].wf(),
            forall|j: int| 0 <= j < more_len ==> (#[trigger] more@[j]).view() == re[j]
                && more@[j].wf(),
        decreases more_len - k,
    {
        let a = SelectedAction {
            name: more[k].name.clone(),
            params: more[k].params.duplicate(),
        };
        extra.push(a);
        k = k + 1;
    }
    proof {
        assert forall|j: int| 0 <= j < extra@.len() implies (#[trigger] extra@[j]).view() == (he
            + re)[j] && extra@[j].wf() by {
            if j >= he.len() {
                assert(extra@[he.len() + (j - he.len())].view() == re[j - he.len()]);
            }
        }
    }
    (primary, extra, head.2 || rest.2)
}

/// The specification images of a list of selected actions.
pub open spec fn views_of(s: Seq<SelectedAction>) -> Seq<ActionView> {
    s.map_values(|x: SelectedAction| x.view())
}

/// Two desired actions are the same action: same name, same parameter
/// mapping (whatever the entry order).
pub open spec fn same_action(x: ActionView, y: ActionView) -> bool {
    x.name == y.name && same_mapping(x.params, y.params)
}

/// Whether some member of `s` is the same action as `a`.
pub open spec fn action_in(s: Seq<ActionView>, a: ActionView) -> bool {
    exists|i: int| 0 <= i < s.len() && same_action(#[trigger] s[i], a)
}

/// Append the members of `s` from position `i` on to `out`, skipping any
/// that duplicate an action already present.
pub open spec fn dedup_from(out: Seq<ActionView>, s: Seq<ActionView>, i: int) -> Seq<ActionView>
    decreases s.len() - i,
{
    if i < 0 || i >= s.len() {
        out
    } else {
        dedup_from(
            if action_in(out, s[i]) {
                out
            } else {
                out.push(s[i])
            },
            s,
            i + 1,
        )
    }
}

/// The ordered, deduplicated desired-action list of a tree: empty on
/// failure; otherwise the primary action first, then each side action not
/// already present.
pub open spec fn spec_select_actions(node: BehaviorNode, env: CondEnv) -> Seq<ActionView> {
    let r = spec_eval(node, env);
    if !r.ok {
        Seq::empty()
    } else {
        let init = match r.primary {
            Some(a) => seq![a],
            None => Seq::<ActionView>::empty(),
        };
        dedup_from(init, r.extra, 0)
    }
}

/// Whether `a` duplicates an action already in `out`.
fn action_list_contains(out: &Vec<SelectedAction>, a: &SelectedAction) -> (r: bool)
    requires
        forall|i: int| 0 <= i < out@.len() ==> (#[trigger] out@[i]).wf(),
        a.wf(),
    ensures
        r == action_in(views_of(out@), a.view()),
{
    let ghost vs = views_of(out@);
    let mut i: usize = 0;
    while i < out.len()
        invariant
            vs == views_of(out@),
            forall|k: int| 0 <= k < out@.len() ==> (#[trigger] out@[k]).wf(),
            a.wf(),
            i <= out@.len(),
            forall|k: int| 0 <= k < i ==> !same_action(#[trigger] vs[k], a.view()),
        decreases out@.len() - i,
    {
        if out[i].name == a.name {
            if out[i].params.same_as(&a.params) {
                proof {
                    assert(same_action(vs[i as int], a.view()));
                }
                return true;
            }
        }
        i = i + 1;
    }
    false
}

/// Evaluate a tree and produce its ordered, deduplicated desired-action
/// list (see [`spec_select_actions`]).
pub fn select_actions(node: &BehaviorNode, env: &CondEnv) -> (r: Vec<SelectedAction>)
    requires
        node_wf(*node),
        env_wf(*env),
    ensures
        views_of(r@) == spec_select_actions(*node, *env),
        forall|i: int| 0 <= i < r@.len() ==> (#[trigger] r@[i]).wf(),
{
    let (primary, multiple, ok) = eval_behavior(node, env);
    if !ok {
        let r: Vec<SelectedAction> = Vec::new();
        proof {
            assert(views_of(r@) =~= spec_select_actions(*node, *env));
        }
        return r;
    }
    let ghost res = spec_eval(*node, *env);
    let mut out: Vec<SelectedAction> = Vec::new();
    match primary {
        Some(a) => {
            out.push(a);
        },
        None => (),
    }
    let ghost init = views_of(out@);
    proof {
        match res.primary {
            Some(a) => {
                assert(init =~= seq![a]);
            },
            None => {
                assert(init =~= Seq::<ActionView>::empty());
            },
        }
    }
    let ghost re = res.extra;
    let mut k: usize = 0;
    let m_len = multiple.len();
    while k < m_len
        invariant
            m_len == multiple@.len(),
            k <= m_len,
            re.len() == m_len,
            forall|j: int| 0 <= j < m_len ==> (#[trigger] multiple@[j]).view() == re[j]
                && multiple@[j].wf(),
            dedup_from(views_of(out@), re, k as int) == dedup_from(init, re, 0),
            forall|j: int| 0 <= j < out@.len() ==> (#[trigger] out@[j]).wf(),
        decreases m_len - k,
    {
        let cand = SelectedAction {
            name: multiple[k].name.clone(),
            params: multiple[k].params.duplicate(),
        };
        let ghost before = views_of(out@);
        proof {
            assert(cand.view() == re[k as int]);
        }
        if !action_list_contains(&out, &cand) {
            out.push(cand);
            proof {
                assert(views_of(out@) =~= before.push(re[k as int]));
            }
        }
        k = k + 1;
    }
    out
}

/// Short-circuit law: a `Sequence` whose first child fails produces no
/// action at all, regardless of its later children.
pub proof fn lemma_sequence_short_circuit(node: BehaviorNode, env: CondEnv)
    requires
        node matches BehaviorNode::Sequence { children } && children@.len() > 0 && !spec_eval(
            children@[0],
            env,
        ).ok,
    ensures
        !spec_eval(node, env).ok,
        spec_eval(node, env).primary is None,
        spec_eval(node, env).extra == Seq::<ActionView>::empty(),
        spec_select_actions(node, env) == Seq::<ActionView>::empty(),
{
}

/// The position of the first child from `i` on that succeeds and carries a
/// primary action; `children.len()` when there is none.
pub open spec fn first_primary_index(children: Seq<BehaviorNode>, i: int, env: CondEnv) -> int
    decreases children.len() - i,
{
    if i < 0 || i >= children.len() {
        children.len() as int
    } else if spec_eval(children[i], env).ok && spec_eval(children[i], env).primary is Some {
        i
    } else {
        first_primary_index(children, i + 1, env)
    }
}

/// Selector primary law: the primary action of a `Selector` tail is the
/// primary of the first successful child that carries one; earlier children
/// either fail or carry none.
pub proof fn lemma_selector_primary(children: Seq<BehaviorNode>, i: int, env: CondEnv)
    requires
        0 <= i <= children.len(),
    ensures
        ({
            let f = first_primary_index(children, i, env);
            &&& i <= f <= children.len()
            &&& spec_eval_selector(children, i, env).primary == (if f < children.len() {
                spec_eval(children[f], env).primary
            } else {
                None::<ActionView>
            })
            &&& (f < children.len() ==> spec_eval(children[f], env).ok && spec_eval(
                children[f],
                env,
            ).primary is Some)
            &&& forall|m: int| i <= m < f ==> !(spec_eval(#[trigger] children[m], env).ok
                && spec_eval(children[m], env).primary is Some)
        }),
    decreases children.len() - i,
{
    if i < children.len() {
        lemma_selector_primary(children, i + 1, env);
    }
}

/// Selector success law: a `Selector` tail succeeds exactly when some child
/// from `i` on succeeds.
pub proof fn lemma_selector_ok(children: Seq<BehaviorNode>, i: int, env: CondEnv)
    requires
        0 <= i,
    ensures
        spec_eval_selector(children, i, env).ok <==> exists|j: int| i <= j < children.len()
            && spec_eval(#[trigger] children[j], env).ok,
    decreases children.len() - i,
{
    if i < children.len() {
        lemma_selector_ok(children, i + 1, env);
        if spec_eval(children[i], env).ok {
            assert(i <= i < children.len() && spec_eval(children[i], env).ok);
        }
    }
}

/// Selector collection law: every side action of every successful child
/// appears in the `Selector` tail's collected side actions.
pub proof fn lemma_selector_collects_all(
    children: Seq<BehaviorNode>,
    i: int,
    env: CondEnv,
    j: int,
    k: int,
)
    requires
        0 <= i <= j < children.len(),
        spec_eval(children[j], env).ok,
        0 <= k < spec_eval(children[j], env).extra.len(),
    ensures
        exists|m: int|
            0 <= m < spec_eval_selector(children, i, env).extra.len() && spec_eval_selector(
                children,
                i,
                env,
            ).extra[m] == spec_eval(children[j], env).extra[k],
    decreases j - i,
{
    let head = spec_eval(children[i], env);
    let rest = spec_eval_selector(children, i + 1, env);
    let own = spec_eval_selector(children, i, env);
    let hpart = if head.ok {
        head.extra
    } else {
        Seq::<ActionView>::empty()
    };
    if i == j {
        assert(own.extra[k] == spec_eval(children[j], env).extra[k]);
    } else {
        lemma_selector_collects_all(children, i + 1, env, j, k);
        let m = choose|m: int|
            0 <= m < rest.extra.len() && rest.extra[m] == spec_eval(children[j], env).extra[k];
        assert(own.extra[hpart.len() + m] == rest.extra[m]);
    }
}

/// Under unique keys, an action is the same action as itself.
pub proof fn lemma_same_action_refl(a: ActionView)
    requires
        unique_keys(a.params),
    ensures
        same_action(a, a),
{
    assert forall|i: int| 0 <= i < a.params.len() implies has_key(
        a.params,
        (#[trigger] a.params[i]).0,
    ) && a.params[key_index(a.params, a.params[i].0)].1 == a.params[i].1 by {
        assert(0 <= i < a.params.len() && a.params[i].0 == a.params[i].0);
        crate::table::lemma_key_unique(a.params, key_index(a.params, a.params[i].0), i);
    }
}

/// Deduplication keeps every action: each member of the initial list and of
/// the input appears (as the same action) in the result.
pub proof fn lemma_dedup_keeps_all(out: Seq<ActionView>, s: Seq<ActionView>, i: int)
    requires
        0 <= i,
        forall|j: int| 0 <= j < s.len() ==> unique_keys((#[trigger] s[j]).params),
    ensures
        forall|a: ActionView| action_in(out, a) ==> action_in(#[trigger] dedup_from(out, s, i), a),
        forall|j: int| i <= j < s.len() ==> action_in(dedup_from(out, s, i), #[trigger] s[j]),
    decreases s.len() - i,
{
    if i < s.len() {
        let nxt = if action_in(out, s[i]) {
            out
        } else {
            out.push(s[i])
        };
        lemma_dedup_keeps_all(nxt, s, i + 1);
        assert forall|a: ActionView| action_in(out, a) implies action_in(
            dedup_from(out, s, i),
            a,
        ) by {
            let w = choose|w: int| 0 <= w < out.len() && same_action(out[w], a);
            assert(nxt[w] == out[w]);
            assert(action_in(nxt, a));
        }
        assert forall|j: int| i <= j < s.len() implies action_in(
            dedup_from(out, s, i),
            #[trigger] s[j],
        ) by {
            if j == i {
                if action_in(out, s[i]) {
                    assert(action_in(nxt, s[i]));
                } else {
                    lemma_same_action_refl(s[i]);
                    assert(same_action(nxt[out.len() as int], s[i]));
                    assert(action_in(nxt, s[i]));
                }
            }
        }
    }
}

/// No two members of `s` are the same action.
pub open spec fn pairwise_distinct(s: Seq<ActionView>) -> bool {
    forall|i: int, j: int| 0 <= i < j < s.len() ==> !same_action(#[trigger] s[i], #[trigger] s[j])
}

/// Deduplication removes every duplicate: if the initial list held no
/// duplicate, neither does the result.
pub proof fn lemma_dedup_distinct(out: Seq<ActionView>, s: Seq<ActionView>, i: int)
    requires
        0 <= i,
        pairwise_distinct(out),
    ensures
        pairwise_distinct(dedup_from(out, s, i)),
    decreases s.len() - i,
{
    if i < s.len() {
        if action_in(out, s[i]) {
            lemma_dedup_distinct(out, s, i + 1);
        } else {
            let nxt = out.push(s[i]);
            assert forall|a: int, b: int| 0 <= a < b < nxt.len() implies !same_action(
                #[trigger] nxt[a],
                #[trigger] nxt[b],
            ) by {
                if b == out.len() {
                    assert(nxt[a] == out[a]);
                    assert(!action_in(out, s[i]));
                    assert(!same_action(out[a], s[i]));
                }
            }
            lemma_dedup_distinct(nxt, s, i + 1);
        }
    }
}

} // verus!
