//! An ordered table from timestamps to orientations.

use crate::quat::Quat64;
use vstd::prelude::*;

verus! {

/// The keys of `s` grow strictly from each entry to the next.
pub open spec fn keys_increasing(s: Seq<(i64, Quat64)>) -> bool {
    forall|i: int, j: int| 0 <= i < j < s.len() ==> (#[trigger] s[i]).0 < (#[trigger] s[j]).0
}

/// Some entry of `s` has the key `t`.
pub open spec fn has_key(s: Seq<(i64, Quat64)>, t: i64) -> bool {
    exists|i: int| 0 <= i < s.len() && (#[trigger] s[i]).0 == t
}

/// The position of an entry of `s` with the key `t`.
pub open spec fn key_index(s: Seq<(i64, Quat64)>, t: i64) -> int {
    choose|i: int| 0 <= i < s.len() && (#[trigger] s[i]).0 == t
}

/// The table that the entries of `s` spell out.
pub open spec fn entries_to_map(s: Seq<(i64, Quat64)>) -> Map<i64, Quat64> {
    Map::new(|t: i64| has_key(s, t), |t: i64| s[key_index(s, t)].1)
}

/// In a sequence with increasing keys every entry is the one its key maps to.
pub proof fn lemma_entry_in_map(s: Seq<(i64, Quat64)>, i: int)
    requires
        keys_increasing(s),
        0 <= i < s.len(),
    ensures
        entries_to_map(s).contains_key(s[i].0),
        entries_to_map(s)[s[i].0] == s[i].1,
        key_index(s, s[i].0) == i,
{
    let t = s[i].0;
    assert(has_key(s, t));
    let j = key_index(s, t);
    assert(0 <= j < s.len() && s[j].0 == t);
    if j < i {
        assert(s[j].0 < s[i].0);
    }
    if i < j {
        assert(s[i].0 < s[j].0);
    }
}

/// The entries spell out the empty table exactly when there are none.
pub proof fn lemma_empty_map(s: Seq<(i64, Quat64)>)
    ensures
        (entries_to_map(s) == Map::<i64, Quat64>::empty()) <==> s.len() == 0,
{
    if s.len() > 0 {
        assert(has_key(s, s[0].0));
        assert(entries_to_map(s).contains_key(s[0].0));
    } else {
        assert(entries_to_map(s) =~= Map::<i64, Quat64>::empty());
    }
}

/// Timestamps in microseconds mapped to orientations, kept in ascending order
/// of time with one entry for each timestamp.
#[derive(Debug)]
pub struct TimeQuat {
    entries: Vec<(i64, Quat64)>,
}

impl View for TimeQuat {
    type V = Map<i64, Quat64>;

    /// The table as a mathematical map.
    open spec fn view(&self) -> Map<i64, Quat64> {
        entries_to_map(self.entries())
    }
}

impl Clone for TimeQuat {
    /// A table with the same entries.
    fn clone(&self) -> (r: TimeQuat)
        ensures
            r.wf(),
            r.entries() == self.entries(),
            r@ == self@,
    {
        proof {
            use_type_invariant(self);
        }
        let mut copy: Vec<(i64, Quat64)> = Vec::new();
        let mut i: usize = 0;
        while i < self.entries.len()
            invariant
                i <= self.entries@.len(),
                copy@ == self.entries@.take(i as int),
            decreases self.entries@.len() - i,
        {
            copy.push(self.entries[i]);
            assert(copy@ =~= self.entries@.take(i + 1));
            i += 1;
        }
        assert(copy@ =~= self.entries@);
        TimeQuat { entries: copy }
    }
}

impl TimeQuat {
    /// The entries in storage order.
    pub closed spec fn entries(self) -> Seq<(i64, Quat64)> {
        self.entries@
    }

    /// The storage order is the ascending order of the timestamps.
    pub open spec fn wf(self) -> bool {
        keys_increasing(self.entries())
    }

    #[verifier::type_invariant]
    spec fn inv(self) -> bool {
        self.wf()
    }

    /// An empty table.
    pub fn new() -> (r: TimeQuat)
        ensures
            r.wf(),
            r.entries() == Seq::<(i64, Quat64)>::empty(),
            r@ == Map::<i64, Quat64>::empty(),
    {
        let r = TimeQuat { entries: Vec::new() };
        assert(r@ =~= Map::<i64, Quat64>::empty());
        r
    }

    /// The number of entries.
    pub fn len(&self) -> (n: usize)
        ensures
            self.wf(),
            n == self.entries().len(),
    {
        proof {
            use_type_invariant(self);
        }
        self.entries.len()
    }

    /// Whether the table has no entry.
    pub fn is_empty(&self) -> (b: bool)
        ensures
            self.wf(),
            b == (self.entries().len() == 0),
            b == (self@ == Map::<i64, Quat64>::empty()),
    {
        proof {
            use_type_invariant(self);
            lemma_empty_map(self.entries());
        }
        self.entries.len() == 0
    }

    /// The timestamp of the entry at position `i`.
    pub fn time_at(&self, i: usize) -> (t: i64)
        requires
            i < self.entries().len(),
        ensures
            self.wf(),
            t == self.entries()[i as int].0,
            self@.contains_key(t),
    {
        proof {
            use_type_invariant(self);
            lemma_entry_in_map(self.entries(), i as int);
        }
        self.entries[i].0
    }

    /// The orientation of the entry at position `i`.
    pub fn quat_at(&self, i: usize) -> (q: Quat64)
        requires
            i < self.entries().len(),
        ensures
            self.wf(),
            q == self.entries()[i as int].1,
            q == self@[self.entries()[i as int].0],
    {
        proof {
            use_type_invariant(self);
            lemma_entry_in_map(self.entries(), i as int);
        }
        self.entries[i].1
    }

    /// The number of entries whose timestamp lies before `t`, which is the
    /// position of the first entry at or after `t`.
    pub fn lower_bound(&self, t: i64) -> (n: usize)
        ensures
            self.wf(),
            n <= self.entries().len(),
            forall|i: int| 0 <= i < n ==> (#[trigger] self.entries()[i]).0 < t,
            forall|i: int| n <= i < self.entries().len() ==> (#[trigger] self.entries()[i]).0 >= t,
    {
        proof {
            use_type_invariant(self);
        }
        let mut lo: usize = 0;
        let mut hi: usize = self.entries.len();
        while lo < hi
            invariant
                lo <= hi <= self.entries@.len(),
                keys_increasing(self.entries@),
                forall|i: int| 0 <= i < lo ==> (#[trigger] self.entries@[i]).0 < t,
                forall|i: int| hi <= i < self.entries@.len() ==> (#[trigger] self.entries@[i]).0 >= t,
            decreases hi - lo,
        {
            let mid: usize = lo + (hi - lo) / 2;
            if self.entries[mid].0 < t {
                assert forall|i: int| 0 <= i < mid + 1 implies (#[trigger] self.entries@[i]).0
                    < t by {
                    if i < mid {
                        assert(self.entries@[i].0 < self.entries@[mid as int].0);
                    }
                }
                lo = mid + 1;
            } else {
                assert forall|i: int| mid <= i < self.entries@.len() implies (
                #[trigger] self.entries@[i]).0 >= t by {
                    if mid < i {
                        assert(self.entries@[mid as int].0 < self.entries@[i].0);
                    }
                }
                hi = mid;
            }
        }
        lo
    }

    /// The orientation stored for the timestamp `t`, if there is one.
    pub fn get(&self, t: i64) -> (r: Option<Quat64>)
        ensures
            self.wf(),
            r == if self@.contains_key(t) {
                Some(self@[t])
            } else {
                None
            },
    {
        let i: usize = self.lower_bound(t);
        if i < self.entries.len() && self.entries[i].0 == t {
            proof {
                lemma_entry_in_map(self.entries(), i as int);
            }
            Some(self.entries[i].1)
        } else {
            proof {
                if has_key(self.entries(), t) {
                    let j = key_index(self.entries(), t);
                    assert(self.entries()[j].0 == t);
                    if j > i {
                        assert(self.entries()[i as int].0 < self.entries()[j].0);
                    }
                }
            }
            None
        }
    }

    /// Stores `q` for the timestamp `t` and returns the orientation that the
    /// timestamp had before, if any. All other entries stay as they are.
    pub fn insert(&mut self, t: i64, q: Quat64) -> (r: Option<Quat64>)
        ensures
            final(self).wf(),
            final(self)@ == old(self)@.insert(t, q),
            r == if old(self)@.contains_key(t) {
                Some(old(self)@[t])
            } else {
                None
            },
    {
        let i: usize = self.lower_bound(t);
        let ghost before = self.entries();
        if i < self.entries.len() && self.entries[i].0 == t {
            let prev: Quat64 = self.entries[i].1;
            proof {
                lemma_entry_in_map(before, i as int);
                lemma_replace(before, i as int, q);
            }
            let mut moved: Vec<(i64, Quat64)> = Vec::new();
            core::mem::swap(&mut self.entries, &mut moved);
            moved.set(i, (t, q));
            core::mem::swap(&mut self.entries, &mut moved);
            Some(prev)
        } else {
            proof {
                lemma_insert(before, i as int, t, q);
            }
            let mut moved: Vec<(i64, Quat64)> = Vec::new();
            core::mem::swap(&mut self.entries, &mut moved);
            moved.insert(i, (t, q));
            core::mem::swap(&mut self.entries, &mut moved);
            None
        }
    }
}

/// Overwriting the orientation of entry `i` keeps the order and updates the
/// map at that entry's key only.
pub proof fn lemma_replace(s: Seq<(i64, Quat64)>, i: int, q: Quat64)
    requires
        keys_increasing(s),
        0 <= i < s.len(),
    ensures
        keys_increasing(s.update(i, (s[i].0, q))),
        entries_to_map(s.update(i, (s[i].0, q))) == entries_to_map(s).insert(s[i].0, q),
{
    let t = s[i].0;
    let s2 = s.update(i, (t, q));
    assert(keys_increasing(s2)) by {
        assert forall|a: int, b: int| 0 <= a < b < s2.len() implies (#[trigger] s2[a]).0 < (
        #[trigger] s2[b]).0 by {
            assert(s[a].0 < s[b].0);
        }
    }
    let m = entries_to_map(s).insert(t, q);
    let m2 = entries_to_map(s2);
    assert forall|k: i64| m2.contains_key(k) <==> m.contains_key(k) by {
        if has_key(s2, k) {
            let j = key_index(s2, k);
            assert(s[j].0 == k);
        }
        if has_key(s, k) {
            let j = key_index(s, k);
            assert(s2[j].0 == k);
        }
        assert(s2[i].0 == t);
    }
    assert forall|k: i64| m2.contains_key(k) implies m2[k] == m[k] by {
        let j = key_index(s2, k);
        lemma_entry_in_map(s2, j);
        if j == i {
        } else {
            assert(s[j].0 == k);
            lemma_entry_in_map(s, j);
            if j < i {
                assert(s[j].0 < s[i].0);
            } else {
                assert(s[i].0 < s[j].0);
            }
        }
    }
    assert(m2 =~= m);
}

/// Placing a new key at its sorted position keeps the order and adds exactly
/// that key to the map.
pub proof fn lemma_insert(s: Seq<(i64, Quat64)>, i: int, t: i64, q: Quat64)
    requires
        keys_increasing(s),
        0 <= i <= s.len(),
        forall|k: int| 0 <= k < i ==> (#[trigger] s[k]).0 < t,
        forall|k: int| i <= k < s.len() ==> (#[trigger] s[k]).0 >= t,
        i < s.len() ==> s[i].0 != t,
    ensures
        keys_increasing(s.insert(i, (t, q))),
        !entries_to_map(s).contains_key(t),
        entries_to_map(s.insert(i, (t, q))) == entries_to_map(s).insert(t, q),
{
    let s2 = s.insert(i, (t, q));
    assert forall|k: int| i <= k < s.len() implies (#[trigger] s[k]).0 > t by {
        if k > i {
            assert(s[i].0 < s[k].0);
        }
    }
    assert(keys_increasing(s2)) by {
        assert forall|a: int, b: int| 0 <= a < b < s2.len() implies (#[trigger] s2[a]).0 < (
        #[trigger] s2[b]).0 by {
            if b < i {
                assert(s[a].0 < s[b].0);
            } else if b == i {
                assert(s2[a] == s[a]);
            } else if a < i {
                assert(s2[a] == s[a]);
                assert(s2[b] == s[b - 1]);
                if a < b - 1 {
                    assert(s[a].0 < s[b - 1].0);
                }
            } else if a == i {
                assert(s2[b] == s[b - 1]);
            } else {
                assert(s2[a] == s[a - 1]);
                assert(s2[b] == s[b - 1]);
                assert(s[a - 1].0 < s[b - 1].0);
            }
        }
    }
    assert(!has_key(s, t)) by {
        if has_key(s, t) {
            let j = key_index(s, t);
            assert(s[j].0 == t);
        }
    }
    let m = entries_to_map(s).insert(t, q);
    let m2 = entries_to_map(s2);
    assert forall|k: i64| m2.contains_key(k) <==> m.contains_key(k) by {
        if has_key(s2, k) {
            let j = key_index(s2, k);
            if j < i {
                assert(s[j].0 == k);
            } else if j > i {
                assert(s[j - 1].0 == k);
            }
        }
        if has_key(s, k) {
            let j = key_index(s, k);
            if j < i {
                assert(s2[j].0 == k);
            } else {
                assert(s2[j + 1].0 == k);
            }
        }
        assert(s2[i].0 == t);
    }
    assert forall|k: i64| m2.contains_key(k) implies m2[k] == m[k] by {
        let j = key_index(s2, k);
        lemma_entry_in_map(s2, j);
        if j < i {
            assert(s2[j] == s[j]);
            lemma_entry_in_map(s, j);
        } else if j > i {
            assert(s2[j] == s[j - 1]);
            lemma_entry_in_map(s, j - 1);
        }
    }
    assert(m2 =~= m);
}

} // verus!
