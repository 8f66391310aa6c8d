//! String-keyed value tables: aggregated actor stats and movement-action
//! parameter tables. Both are association lists with unique keys, viewed in
//! contracts as sequences of `(key, value)` pairs.

use vstd::prelude::*;
use crate::fixed::{fx_in_range, fx_clamp};

verus! {

/// View of a table: the keys as character sequences, the values as integers.
pub open spec fn kv_view(s: Seq<(String, i64)>) -> Seq<(Seq<char>, int)> {
    s.map_values(|p: (String, i64)| (p.0@, p.1 as int))
}

/// No key occurs twice.
pub open spec fn unique_keys(s: Seq<(Seq<char>, int)>) -> bool {
    forall|i: int, j: int| 0 <= i < j < s.len() ==> s[i].0 != s[j].0
}

/// Whether some entry has key `k`.
pub open spec fn has_key(s: Seq<(Seq<char>, int)>, k: Seq<char>) -> bool {
    exists|i: int| 0 <= i < s.len() && s[i].0 == k
}

/// The index of the entry with key `k` (unique when `unique_keys` holds).
pub open spec fn key_index(s: Seq<(Seq<char>, int)>, k: Seq<char>) -> int {
    choose|i: int| 0 <= i < s.len() && s[i].0 == k
}

/// The value stored under `k`, or `default` when `k` is absent.
pub open spec fn value_of(s: Seq<(Seq<char>, int)>, k: Seq<char>, default: int) -> int {
    if has_key(s, k) {
        s[key_index(s, k)].1
    } else {
        default
    }
}

/// All values lie within the scalar saturation range.
pub open spec fn values_in_range(s: Seq<(Seq<char>, int)>) -> bool {
    forall|i: int| 0 <= i < s.len() ==> fx_in_range(#[trigger] s[i].1)
}

/// Under unique keys, two entries with the same key are the same entry.
pub proof fn lemma_key_unique(s: Seq<(Seq<char>, int)>, i: int, j: int)
    requires
        unique_keys(s),
        0 <= i < s.len(),
        0 <= j < s.len(),
        s[i].0 == s[j].0,
    ensures
        i == j,
{
    if i < j {
        assert(s[i].0 != s[j].0);
    } else if j < i {
        assert(s[j].0 != s[i].0);
    }
}

/// `a` maps every one of its keys to the same value in `b`.
pub open spec fn entries_subsumed(a: Seq<(Seq<char>, int)>, b: Seq<(Seq<char>, int)>) -> bool {
    forall|i: int| 0 <= i < a.len() ==> has_key(b, #[trigger] a[i].0) && b[key_index(b, a[i].0)].1
        == a[i].1
}

/// Two tables carry exactly the same key-to-value mapping, whatever the
/// order of their entries.
pub open spec fn same_mapping(a: Seq<(Seq<char>, int)>, b: Seq<(Seq<char>, int)>) -> bool {
    entries_subsumed(a, b) && entries_subsumed(b, a)
}

/// A string-keyed table of fixed-point scalars with unique keys: the
/// parameter table of a movement action.
#[derive(Debug)]
pub struct MovementParams {
    entries: Vec<(String, i64)>,
}

impl MovementParams {
    /// The table's contents, as a sequence of `(key, value)` pairs.
    pub closed spec fn view(self) -> Seq<(Seq<char>, int)> {
        kv_view(self.entries@)
    }

    /// Well-formed: unique keys, in-range values.
    pub open spec fn wf(self) -> bool {
        unique_keys(self.view()) && values_in_range(self.view())
    }

    /// The empty table.
    pub fn new() -> (r: MovementParams)
        ensures
            r.view() =~= Seq::<(Seq<char>, int)>::empty(),
            r.wf(),
    {
        let r = MovementParams { entries: Vec::new() };
        proof {
            assert(r.view() =~= Seq::<(Seq<char>, int)>::empty());
        }
        r
    }

    /// Number of entries.
    pub fn len(&self) -> (r: usize)
        ensures
            r == self.view().len(),
    {
        self.entries.len()
    }

    /// The entry at position `i`, copied out.
    pub fn entry_at(&self, i: usize) -> (r: (String, i64))
        requires
            i < self.view().len(),
        ensures
            r.0@ == self.view()[i as int].0,
            r.1 == self.view()[i as int].1,
    {
        let k = self.entries[i].0.clone();
        let v = self.entries[i].1;
        (k, v)
    }

    /// The index of `key`'s entry, if present.
    fn find(&self, key: &String) -> (r: Option<usize>)
        requires
            self.wf(),
        ensures
            match r {
                Some(i) => i < self.view().len() && self.view()[i as int].0 == key@ && has_key(
                    self.view(),
                    key@,
                ) && key_index(self.view(), key@) == i,
                None => !has_key(self.view(), key@),
            },
    {
        let ghost s = self.view();
        let mut i: usize = 0;
        while i < self.entries.len()
            invariant
                self.wf(),
                s == self.view(),
                i <= s.len(),
                forall|j: int| 0 <= j < i ==> s[j].0 != key@,
            decreases s.len() - i,
        {
            if self.entries[i].0 == *key {
                proof {
                    assert(s[i as int].0 == key@);
                    let w = key_index(s, key@);
                    assert(0 <= w < s.len() && s[w].0 == key@);
                    lemma_key_unique(s, w, i as int);
                }
                return Some(i);
            }
            i = i + 1;
        }
        proof {
            if has_key(s, key@) {
                let w = key_index(s, key@);
                assert(s[w].0 == key@);
            }
        }
        None
    }

    /// The value under `key`, or `default` when absent.
    pub fn get_or(&self, key: &String, default: i64) -> (r: i64)
        requires
            self.wf(),
            fx_in_range(default as int),
        ensures
            r == value_of(self.view(), key@, default as int),
            fx_in_range(r as int),
    {
        match self.find(key) {
            Some(i) => {
                proof {
                    assert(fx_in_range(self.view()[i as int].1));
                    assert(self.view()[i as int].1 == self.entries@[i as int].1);
                }
                self.entries[i].1
            },
            None => default,
        }
    }

    /// Whether `key` is present.
    pub fn contains(&self, key: &String) -> (r: bool)
        requires
            self.wf(),
        ensures
            r == has_key(self.view(), key@),
    {
        match self.find(key) {
            Some(_) => true,
            None => false,
        }
    }

    /// Store `value` under `key`, replacing any previous value.
    pub fn put(&mut self, key: String, value: i64)
        requires
            old(self).wf(),
            fx_in_range(value as int),
        ensures
            final(self).wf(),
            has_key(old(self).view(), key@) ==> final(self).view() == old(self).view().update(
                key_index(old(self).view(), key@),
                (key@, value as int),
            ),
            !has_key(old(self).view(), key@) ==> final(self).view() == old(self).view().push(
                (key@, value as int),
            ),
    {
        let ghost s = self.view();
        match self.find(&key) {
            Some(i) => {
                self.entries[i] = (key, value);
                proof {
                    assert(self.view() =~= s.update(key_index(s, key@), (key@, value as int)));
                    assert forall|a: int, b: int|
                        0 <= a < b < self.view().len() implies self.view()[a].0
                        != self.view()[b].0 by {
                        assert(s[a].0 == self.view()[a].0 || a == key_index(s, key@));
                        assert(s[b].0 == self.view()[b].0 || b == key_index(s, key@));
                    }
                }
            },
            None => {
                self.entries.push((key, value));
                proof {
                    assert(self.view() =~= s.push((key@, value as int)));
                    assert forall|a: int, b: int|
                        0 <= a < b < self.view().len() implies self.view()[a].0
                        != self.view()[b].0 by {
                        if b == s.len() {
                            assert(!has_key(s, key@));
                            assert(self.view()[a] == s[a]);
                        }
                    }
                }
            },
        }
    }

    /// Store `value` under `key` only when `key` is absent.
    pub fn put_default(&mut self, key: String, value: i64)
        requires
            old(self).wf(),
            fx_in_range(value as int),
        ensures
            final(self).wf(),
            has_key(old(self).view(), key@) ==> *final(self) == *old(self),
            !has_key(old(self).view(), key@) ==> final(self).view() == old(self).view().push(
                (key@, value as int),
            ),
    {
        match self.find(&key) {
            Some(_) => (),
            None => {
                let ghost s = self.view();
                self.entries.push((key, value));
                proof {
                    assert(self.view() =~= s.push((key@, value as int)));
                    assert forall|a: int, b: int|
                        0 <= a < b < self.view().len() implies self.view()[a].0
                        != self.view()[b].0 by {
                        if b == s.len() {
                            assert(!has_key(s, key@));
                            assert(self.view()[a] == s[a]);
                        }
                    }
                }
            },
        }
    }

    /// Whether `self` and `other` carry exactly the same mapping.
    pub fn same_as(&self, other: &MovementParams) -> (r: bool)
        requires
            self.wf(),
            other.wf(),
        ensures
            r == same_mapping(self.view(), other.view()),
    {
        if !self.subsumed_by(other) {
            return false;
        }
        other.subsumed_by(self)
    }

    /// Whether every entry of `self` appears, with the same value, in
    /// `other`.
    fn subsumed_by(&self, other: &MovementParams) -> (r: bool)
        requires
            self.wf(),
            other.wf(),
        ensures
            r == entries_subsumed(self.view(), other.view()),
    {
        let ghost s = self.view();
        let ghost t = other.view();
        let mut i: usize = 0;
        while i < self.entries.len()
            invariant
                self.wf(),
                other.wf(),
                s == self.view(),
                t == other.view(),
                i <= s.len(),
                forall|j: int| 0 <= j < i ==> has_key(t, #[trigger] s[j].0) && t[key_index(
                    t,
                    s[j].0,
                )].1 == s[j].1,
            decreases s.len() - i,
        {
            let key = &self.entries[i].0;
            match other.find(key) {
                Some(j) => {
                    if other.entries[j].1 != self.entries[i].1 {
                        proof {
                            assert(!(has_key(t, s[i as int].0) && t[key_index(t, s[i as int].0)].1
                                == s[i as int].1));
                        }
                        return false;
                    }
                },
                None => {
                    proof {
                        assert(!has_key(t, s[i as int].0));
                    }
                    return false;
                },
            }
            i = i + 1;
        }
        true
    }

    /// A copy with the same contents.
    pub fn duplicate(&self) -> (r: MovementParams)
        ensures
            r.view() == self.view(),
            r.wf() == self.wf(),
    {
        let mut out: Vec<(String, i64)> = Vec::new();
        let mut i: usize = 0;
        while i < self.entries.len()
            invariant
                i <= self.entries@.len(),
                out@.len() == i,
                forall|j: int| 0 <= j < i ==> out@[j].0@ == self.entries@[j].0@ && out@[j].1
                    == self.entries@[j].1,
            decreases self.entries@.len() - i,
        {
            let k = self.entries[i].0.clone();
            let v = self.entries[i].1;
            out.push((k, v));
            i = i + 1;
        }
        let r = MovementParams { entries: out };
        proof {
            assert(r.view() =~= self.view());
        }
        r
    }
}

/// The aggregated stat table of an actor: base stats merged with trait
/// contributions, each value accumulated with saturating addition.
#[derive(Debug)]
pub struct StatBlock {
    values: MovementParams,
}

/// The view of a stat table after one accumulation step on `key`.
pub open spec fn stat_added(s: Seq<(Seq<char>, int)>, key: Seq<char>, value: int) -> Seq<
    (Seq<char>, int),
> {
    if has_key(s, key) {
        s.update(key_index(s, key), (key, fx_clamp(s[key_index(s, key)].1 + value)))
    } else {
        s.push((key, fx_clamp(value)))
    }
}

/// The view of a stat table after merging in `other`, entry by entry.
pub open spec fn stat_merged(s: Seq<(Seq<char>, int)>, other: Seq<(Seq<char>, int)>) -> Seq<
    (Seq<char>, int),
>
    decreases other.len(),
{
    if other.len() == 0 {
        s
    } else {
        stat_added(stat_merged(s, other.drop_last()), other.last().0, other.last().1)
    }
}

impl StatBlock {
    /// The table's contents, as a sequence of `(key, value)` pairs.
    pub closed spec fn view(self) -> Seq<(Seq<char>, int)> {
        self.values.view()
    }

    /// A copy with the same contents.
    pub fn duplicate(&self) -> (r: StatBlock)
        ensures
            r.view() == self.view(),
            r.wf() == self.wf(),
    {
        StatBlock { values: self.values.duplicate() }
    }

    /// Well-formed: unique keys, in-range values.
    pub open spec fn wf(self) -> bool {
        unique_keys(self.view()) && values_in_range(self.view())
    }

    /// The empty stat table.
    pub fn new() -> (r: StatBlock)
        ensures
            r.view() =~= Seq::<(Seq<char>, int)>::empty(),
            r.wf(),
    {
        StatBlock { values: MovementParams::new() }
    }

    /// Accumulate `value` into the entry under `key`, creating it at zero
    /// first when absent; the sum saturates at the scalar range.
    pub fn add(&mut self, key: &String, value: i64)
        requires
            old(self).wf(),
            fx_in_range(value as int),
        ensures
            final(self).wf(),
            final(self).view() == stat_added(old(self).view(), key@, value as int),
    {
        let ghost s = self.view();
        match self.values.find(key) {
            Some(i) => {
                let prev = self.values.entry_at(i).1;
                proof {
                    assert(fx_in_range(s[i as int].1));
                }
                self.values.put(key.clone(), crate::fixed::fx_sat_add(prev, value));
            },
            None => {
                self.values.put(key.clone(), crate::fixed::fx_sat_add(0, value));
            },
        }
    }

    /// The value under `key`, or `default` when absent.
    pub fn get(&self, key: &String, default: i64) -> (r: i64)
        requires
            self.wf(),
            fx_in_range(default as int),
        ensures
            r == value_of(self.view(), key@, default as int),
            fx_in_range(r as int),
    {
        self.values.get_or(key, default)
    }

    /// Merge every entry of `other` into `self` by accumulation.
    pub fn merge(&mut self, other: &StatBlock)
        requires
            old(self).wf(),
            other.wf(),
        ensures
            final(self).wf(),
            final(self).view() == stat_merged(old(self).view(), other.view()),
    {
        let ghost s = self.view();
        let ghost t = other.view();
        let mut i: usize = 0;
        while i < other.values.len()
            invariant
                self.wf(),
                other.wf(),
                t == other.view(),
                i <= t.len(),
                self.view() == stat_merged(s, t.subrange(0, i as int)),
            decreases t.len() - i,
        {
            let (k, v) = other.values.entry_at(i);
            proof {
                assert(fx_in_range(t[i as int].1));
            }
            self.add(&k, v);
            proof {
                let pre = t.subrange(0, i as int);
                let post = t.subrange(0, i + 1);
                assert(post.drop_last() =~= pre);
                assert(post.last() == t[i as int]);
            }
            i = i + 1;
        }
        proof {
            assert(t.subrange(0, t.len() as int) =~= t);
        }
    }
}

} // verus!
