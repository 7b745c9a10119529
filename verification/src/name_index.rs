//! An index from canonical names to entity ids.
//!
//! The index is a list of (name, id) slots in which no name occurs twice; as a
//! value it is the finite map that the slots spell out.

use vstd::prelude::*;
use crate::irc_identifier::IrcIdentifier;

verus! {

/// No name occurs in two slots.
pub open spec fn distinct_keys(s: Seq<(Seq<char>, u64)>) -> bool {
    forall|i: int, j: int| 0 <= i < j < s.len() ==> (#[trigger] s[i]).0 != (#[trigger] s[j]).0
}

/// Whether some slot of `s` holds the name `k`.
pub open spec fn has_key(s: Seq<(Seq<char>, u64)>, k: Seq<char>) -> bool {
    exists|i: int| 0 <= i < s.len() && (#[trigger] s[i]).0 == k
}

/// The position of a slot that holds the name `k`.
pub open spec fn slot_of(s: Seq<(Seq<char>, u64)>, k: Seq<char>) -> int {
    choose|i: int| 0 <= i < s.len() && (#[trigger] s[i]).0 == k
}

/// The map that a list of slots spells out.
pub open spec fn as_map(s: Seq<(Seq<char>, u64)>) -> Map<Seq<char>, u64> {
    Map::new(|k: Seq<char>| has_key(s, k), |k: Seq<char>| s[slot_of(s, k)].1)
}

/// With distinct names, each slot is an entry of the map.
pub proof fn lemma_as_map_at(s: Seq<(Seq<char>, u64)>, i: int)
    requires
        distinct_keys(s),
        0 <= i < s.len(),
    ensures
        as_map(s).contains_key(s[i].0),
        as_map(s)[s[i].0] == s[i].1,
{
    let k = s[i].0;
    assert(has_key(s, k));
    let j = slot_of(s, k);
    assert(j == i) by {
        if j < i {
            assert(s[j].0 != s[i].0);
        } else if i < j {
            assert(s[i].0 != s[j].0);
        }
    }
}

proof fn lemma_as_map_push(s: Seq<(Seq<char>, u64)>, k: Seq<char>, v: u64)
    requires
        distinct_keys(s),
        !has_key(s, k),
    ensures
        distinct_keys(s.push((k, v))),
        as_map(s.push((k, v))) == as_map(s).insert(k, v),
{
    let t = s.push((k, v));
    assert forall|i: int, j: int| 0 <= i < j < t.len() implies (#[trigger] t[i]).0 != (
    #[trigger] t[j]).0 by {
        if j < s.len() {
            assert(s[i].0 != s[j].0);
        } else {
            assert(t[i] == s[i]);
        }
    }
    assert forall|q: Seq<char>| #[trigger] has_key(t, q) <==> (q == k || has_key(s, q)) by {
        if has_key(t, q) {
            let i = slot_of(t, q);
            if i < s.len() {
                assert(s[i].0 == q);
            }
        }
        if q == k {
            assert(t[s.len() as int].0 == k);
        }
        if has_key(s, q) {
            let i = slot_of(s, q);
            assert(t[i].0 == q);
        }
    }
    assert forall|q: Seq<char>| has_key(t, q) implies #[trigger] as_map(t)[q] == as_map(s).insert(
        k,
        v,
    )[q] by {
        let i = slot_of(t, q);
        lemma_as_map_at(t, i);
        if i < s.len() {
            assert(t[i] == s[i]);
            lemma_as_map_at(s, i);
        }
    }
    assert(as_map(t) =~= as_map(s).insert(k, v));
}

proof fn lemma_as_map_update(s: Seq<(Seq<char>, u64)>, i: int, v: u64)
    requires
        distinct_keys(s),
        0 <= i < s.len(),
    ensures
        distinct_keys(s.update(i, (s[i].0, v))),
        as_map(s.update(i, (s[i].0, v))) == as_map(s).insert(s[i].0, v),
{
    let k = s[i].0;
    let t = s.update(i, (k, v));
    assert forall|a: int, b: int| 0 <= a < b < t.len() implies (#[trigger] t[a]).0 != (
    #[trigger] t[b]).0 by {
        assert(s[a].0 != s[b].0);
    }
    assert forall|q: Seq<char>| #[trigger] has_key(t, q) <==> (q == k || has_key(s, q)) by {
        if has_key(t, q) {
            let j = slot_of(t, q);
            assert(s[j].0 == q);
        }
        if q == k {
            assert(t[i].0 == k);
        }
        if has_key(s, q) {
            let j = slot_of(s, q);
            assert(t[j].0 == q);
        }
    }
    assert forall|q: Seq<char>| has_key(t, q) implies #[trigger] as_map(t)[q] == as_map(s).insert(
        k,
        v,
    )[q] by {
        let j = slot_of(t, q);
        lemma_as_map_at(t, j);
        if j != i {
            assert(t[j] == s[j]);
            lemma_as_map_at(s, j);
            assert(s[j].0 != s[i].0) by {
                if j < i {
                    assert(s[j].0 != s[i].0);
                } else {
                    assert(s[i].0 != s[j].0);
                }
            }
        }
    }
    assert(as_map(t) =~= as_map(s).insert(k, v));
}

proof fn lemma_as_map_remove(s: Seq<(Seq<char>, u64)>, i: int)
    requires
        distinct_keys(s),
        0 <= i < s.len(),
    ensures
        distinct_keys(s.remove(i)),
        as_map(s.remove(i)) == as_map(s).remove(s[i].0),
{
    let k = s[i].0;
    let t = s.remove(i);
    assert forall|a: int| 0 <= a < t.len() implies #[trigger] t[a] == s[if a < i {
        a
    } else {
        a + 1
    }] by {}
    assert forall|a: int, b: int| 0 <= a < b < t.len() implies (#[trigger] t[a]).0 != (
    #[trigger] t[b]).0 by {
        let a2 = if a < i { a } else { a + 1 };
        let b2 = if b < i { b } else { b + 1 };
        assert(s[a2].0 != s[b2].0);
    }
    assert forall|q: Seq<char>| #[trigger] has_key(t, q) <==> (q != k && has_key(s, q)) by {
        if has_key(t, q) {
            let j = slot_of(t, q);
            let j2 = if j < i { j } else { j + 1 };
            assert(s[j2].0 == q);
            if j2 < i {
                assert(s[j2].0 != s[i].0);
            } else {
                assert(s[i].0 != s[j2].0);
            }
        }
        if q != k && has_key(s, q) {
            let j = slot_of(s, q);
            let j2 = if j < i { j } else { j - 1 };
            assert(t[j2] == s[j]);
            assert(t[j2].0 == q);
        }
    }
    assert forall|q: Seq<char>| has_key(t, q) implies #[trigger] as_map(t)[q] == as_map(s).remove(
        k,
    )[q] by {
        let j = slot_of(t, q);
        let j2 = if j < i { j } else { j + 1 };
        lemma_as_map_at(t, j);
        assert(t[j] == s[j2]);
        lemma_as_map_at(s, j2);
    }
    assert(as_map(t) =~= as_map(s).remove(k));
}

#[derive(Debug)]
struct Entry {
    key: IrcIdentifier,
    id: u64,
}

/// A finite map from canonical names to ids.
#[derive(Debug)]
pub struct NameIndex {
    entries: Vec<Entry>,
}

impl View for NameIndex {
    type V = Map<Seq<char>, u64>;

    open spec fn view(&self) -> Map<Seq<char>, u64> {
        as_map(self.slots())
    }
}

impl NameIndex {
    /// The slots in storage order, each as (name, id).
    pub closed spec fn slots(&self) -> Seq<(Seq<char>, u64)> {
        self.entries@.map_values(|e: Entry| (e.key@, e.id))
    }

    #[verifier::type_invariant]
    spec fn keys_are_distinct(&self) -> bool {
        distinct_keys(self.slots())
    }

    /// The empty index.
    pub fn new() -> (idx: NameIndex)
        ensures
            idx@ == Map::<Seq<char>, u64>::empty(),
    {
        let idx = NameIndex { entries: Vec::new() };
        assert(idx@ =~= Map::<Seq<char>, u64>::empty());
        idx
    }

    /// Hands out the list of entries and leaves the index empty.
    fn take_entries(&mut self) -> (entries: Vec<Entry>)
        ensures
            entries == old(self).entries,
            final(self).entries@.len() == 0,
    {
        let mut entries: Vec<Entry> = Vec::new();
        assert(entries@.map_values(|e: Entry| (e.key@, e.id)) =~= Seq::empty());
        core::mem::swap(&mut self.entries, &mut entries);
        entries
    }

    /// Makes `entries` the list of the index.
    fn put_entries(&mut self, entries: Vec<Entry>)
        requires
            distinct_keys(entries@.map_values(|e: Entry| (e.key@, e.id))),
        ensures
            final(self).entries == entries,
    {
        let mut entries = entries;
        core::mem::swap(&mut self.entries, &mut entries);
    }

    fn position(&self, key: &IrcIdentifier) -> (r: Option<usize>)
        ensures
            distinct_keys(self.slots()),
            match r {
                Some(i) => i < self.slots().len() && self.slots()[i as int].0 == key@,
                None => !has_key(self.slots(), key@),
            },
    {
        proof {
            use_type_invariant(self);
        }
        let n = self.entries.len();
        let mut i: usize = 0;
        while i < n
            invariant
                n == self.entries.len(),
                i <= n,
                distinct_keys(self.slots()),
                forall|j: int| 0 <= j < i ==> (#[trigger] self.slots()[j]).0 != key@,
            decreases n - i,
        {
            if self.entries[i].key == *key {
                return Some(i);
            }
            i = i + 1;
        }
        None
    }

    /// The id filed under `key`, if there is one.
    pub fn get(&self, key: &IrcIdentifier) -> (r: Option<u64>)
        ensures
            r == (if self@.contains_key(key@) {
                Some(self@[key@])
            } else {
                None
            }),
    {
        match self.position(key) {
            Some(i) => {
                proof {
                    lemma_as_map_at(self.slots(), i as int);
                }
                Some(self.entries[i].id)
            },
            None => None,
        }
    }

    /// Files `id` under `key`, in place of what was filed there. Returns the
    /// id that was filed there before.
    pub fn insert(&mut self, key: IrcIdentifier, id: u64) -> (r: Option<u64>)
        ensures
            final(self)@ == old(self)@.insert(key@, id),
            r == (if old(self)@.contains_key(key@) {
                Some(old(self)@[key@])
            } else {
                None
            }),
    {
        match self.position(&key) {
            Some(i) => {
                let before = self.entries[i].id;
                proof {
                    lemma_as_map_at(self.slots(), i as int);
                    lemma_as_map_update(self.slots(), i as int, id);
                    assert(self.entries@.update(i as int, Entry { key, id }).map_values(
                        |e: Entry| (e.key@, e.id),
                    ) =~= self.slots().update(i as int, (key@, id)));
                }
                let mut entries = self.take_entries();
                entries.set(i, Entry { key, id });
                self.put_entries(entries);
                Some(before)
            },
            None => {
                proof {
                    lemma_as_map_push(self.slots(), key@, id);
                    assert(self.entries@.push(Entry { key, id }).map_values(
                        |e: Entry| (e.key@, e.id),
                    ) =~= self.slots().push((key@, id)));
                }
                let mut entries = self.take_entries();
                entries.push(Entry { key, id });
                self.put_entries(entries);
                None
            },
        }
    }

    /// Takes `key` out of the index. Returns the id that was filed under it.
    pub fn remove(&mut self, key: &IrcIdentifier) -> (r: Option<u64>)
        ensures
            final(self)@ == old(self)@.remove(key@),
            r == (if old(self)@.contains_key(key@) {
                Some(old(self)@[key@])
            } else {
                None
            }),
    {
        match self.position(key) {
            Some(i) => {
                proof {
                    lemma_as_map_at(self.slots(), i as int);
                    lemma_as_map_remove(self.slots(), i as int);
                    assert(self.entries@.remove(i as int).map_values(|e: Entry| (e.key@, e.id))
                        =~= self.slots().remove(i as int));
                }
                let mut entries = self.take_entries();
                let e = entries.remove(i);
                self.put_entries(entries);
                Some(e.id)
            },
            None => {
                assert(self@.remove(key@) =~= self@);
                None
            },
        }
    }

    /// The number of slots. No name occurs in two of them, so each slot is one
    /// entry of the map and each entry is one slot.
    pub fn len(&self) -> (n: usize)
        ensures
            n == self.slots().len(),
            distinct_keys(self.slots()),
    {
        proof {
            use_type_invariant(self);
        }
        self.entries.len()
    }

    /// The name and the id in slot `i`.
    pub fn slot(&self, i: usize) -> (r: (&IrcIdentifier, u64))
        requires
            i < self.slots().len(),
        ensures
            (r.0@, r.1) == self.slots()[i as int],
    {
        (&self.entries[i].key, self.entries[i].id)
    }

    /// Whether every entry of this index is an entry of `other`.
    fn within(&self, other: &NameIndex) -> (r: bool)
        ensures
            r == self@.submap_of(other@),
    {
        let n = self.len();
        let mut i: usize = 0;
        while i < n
            invariant
                i <= n,
                n == self.slots().len(),
                distinct_keys(self.slots()),
                forall|j: int|
                    0 <= j < i ==> other@.contains_key((#[trigger] self.slots()[j]).0)
                        && other@[self.slots()[j].0] == self.slots()[j].1,
            decreases n - i,
        {
            let (key, id) = self.slot(i);
            proof {
                lemma_as_map_at(self.slots(), i as int);
            }
            match other.get(key) {
                Some(found) => {
                    if found != id {
                        return false;
                    }
                },
                None => {
                    return false;
                },
            }
            i = i + 1;
        }
        proof {
            assert forall|k: Seq<char>| #[trigger] self@.contains_key(k) implies 
                other@.contains_key(k) && self@[k] == other@[k] by {
                let j = slot_of(self.slots(), k);
                lemma_as_map_at(self.slots(), j);
            }
        }
        true
    }

    /// Whether two indexes file the same ids under the same names.
    pub fn same_as(&self, other: &NameIndex) -> (r: bool)
        ensures
            r == (self@ == other@),
    {
        let r = self.within(other) && other.within(self);
        proof {
            if r {
                assert(self@ =~= other@);
            }
        }
        r
    }
}

impl Clone for NameIndex {
    /// An independent copy of the index.
    fn clone(&self) -> (r: NameIndex)
        ensures
            r@ == self@,
            r.slots() == self.slots(),
    {
        proof {
            use_type_invariant(self);
        }
        let n = self.entries.len();
        let mut entries: Vec<Entry> = Vec::new();
        let mut i: usize = 0;
        while i < n
            invariant
                n == self.entries.len(),
                i <= n,
                entries@.len() == i,
                forall|j: int|
                    0 <= j < i ==> (#[trigger] entries@[j]).key@ == self.entries@[j].key@
                        && entries@[j].id == self.entries@[j].id,
            decreases n - i,
        {
            entries.push(Entry { key: self.entries[i].key.clone(), id: self.entries[i].id });
            i = i + 1;
        }
        proof {
            assert(entries@.map_values(|e: Entry| (e.key@, e.id)) =~= self.slots());
        }
        NameIndex { entries }
    }
}

} // verus!
