//! A small map from node ids to values, kept as a list of entries with distinct keys.
use vstd::prelude::*;

use crate::graph::NodeId;

verus! {

/// The map that a list of entries describes: each key that occurs maps to its value.
pub open spec fn entries_map<K, V>(s: Seq<(K, V)>) -> Map<K, V> {
    Map::new(
        |k: K| exists|i: int| 0 <= i < s.len() && #[trigger] s[i].0 == k,
        |k: K| s[choose|i: int| 0 <= i < s.len() && #[trigger] s[i].0 == k].1,
    )
}

/// No key occurs twice in the list of entries.
pub open spec fn distinct_keys<K, V>(s: Seq<(K, V)>) -> bool {
    forall|i: int, j: int| 0 <= i < s.len() && 0 <= j < s.len() && i != j ==> #[trigger] s[i].0 != #[trigger] s[j].0
}

/// The keys of a list of entries, in order.
pub open spec fn entry_keys<K, V>(s: Seq<(K, V)>) -> Seq<K> {
    s.map_values(|e: (K, V)| e.0)
}

/// Each entry of a list with distinct keys is what its key maps to.
pub proof fn lemma_entry_value<K, V>(s: Seq<(K, V)>, i: int)
    requires
        distinct_keys(s),
        0 <= i < s.len(),
    ensures
        entries_map(s).dom().contains(s[i].0),
        entries_map(s)[s[i].0] == s[i].1,
{
    let k = s[i].0;
    assert(s[i].0 == k);
    let j = choose|j: int| 0 <= j < s.len() && #[trigger] s[j].0 == k;
    assert(j == i);
}

/// A map from node ids to values.
#[derive(Debug, Clone)]
pub struct NodeMap<K, V> {
    entries: Vec<(K, V)>,
}

impl<K, V> View for NodeMap<K, V> {
    type V = Map<K, V>;

    closed spec fn view(&self) -> Map<K, V> {
        entries_map(self.entries@)
    }
}

impl<K: NodeId, V: Copy> NodeMap<K, V> {
    /// The list of entries has no key twice.
    pub closed spec fn wf(&self) -> bool {
        distinct_keys(self.entries@)
    }

    /// The keys, in the order in which they were first inserted.
    pub closed spec fn spec_keys(&self) -> Seq<K> {
        entry_keys(self.entries@)
    }

    /// The keys are the domain of the map, each once, and the domain is finite.
    pub proof fn lemma_keys(&self)
        requires
            self.wf(),
        ensures
            self.spec_keys().no_duplicates(),
            forall|k: K| self@.dom().contains(k) <==> self.spec_keys().contains(k),
            self@.dom().finite(),
            self@.dom().len() == self.spec_keys().len(),
    {
        let s = self.entries@;
        let ks = entry_keys(s);
        assert forall|k: K| self@.dom().contains(k) <==> ks.contains(k) by {
            if self@.dom().contains(k) {
                let i = choose|i: int| 0 <= i < s.len() && #[trigger] s[i].0 == k;
                assert(ks[i] == k);
            }
            if ks.contains(k) {
                let i = choose|i: int| 0 <= i < ks.len() && ks[i] == k;
                assert(s[i].0 == k);
            }
        }
        assert(ks.no_duplicates()) by {
            assert forall|i: int, j: int| 0 <= i < ks.len() && 0 <= j < ks.len() && i != j implies ks[i] != ks[j] by {
                assert(ks[i] == s[i].0 && ks[j] == s[j].0);
            }
        }
        assert(self@.dom() =~= ks.to_set());
        ks.unique_seq_to_set();
    }

    /// Creates an empty map.
    pub fn new() -> (m: Self)
        ensures
            m.wf(),
            m@ == Map::<K, V>::empty(),
            m.spec_keys() == Seq::<K>::empty(),
    {
        let m = NodeMap { entries: Vec::new() };
        assert(m@ =~= Map::<K, V>::empty());
        assert(m.spec_keys() =~= Seq::<K>::empty());
        m
    }

    /// Creates an empty map with room for `capacity` entries.
    pub fn with_capacity(capacity: usize) -> (m: Self)
        ensures
            m.wf(),
            m@ == Map::<K, V>::empty(),
            m.spec_keys() == Seq::<K>::empty(),
    {
        let m = NodeMap { entries: Vec::with_capacity(capacity) };
        assert(m@ =~= Map::<K, V>::empty());
        assert(m.spec_keys() =~= Seq::<K>::empty());
        m
    }

    /// The entries of the map, in the order in which their keys were first inserted.
    pub fn entries(&self) -> (entries: &Vec<(K, V)>)
        ensures
            entry_keys(entries@) == self.spec_keys(),
            entries_map(entries@) == self@,
    {
        &self.entries
    }

    /// Returns the number of entries.
    pub fn len(&self) -> (len: usize)
        requires
            self.wf(),
        ensures
            len == self@.dom().len(),
    {
        proof {
            self.lemma_keys();
        }
        self.entries.len()
    }

    /// Returns true if the map has no entries.
    pub fn is_empty(&self) -> (empty: bool)
        requires
            self.wf(),
        ensures
            empty == (self@.dom().len() == 0),
    {
        proof {
            self.lemma_keys();
        }
        self.entries.len() == 0
    }

    /// The position of the entry with key `k`, if there is one.
    fn position(&self, k: &K) -> (pos: Option<usize>)
        requires
            self.wf(),
        ensures
            pos is None <==> !self@.dom().contains(*k),
            pos matches Some(i) ==> i < self.entries@.len() && self.entries@[i as int].0 == *k,
    {
        for i in 0..self.entries.len()
            invariant
                forall|j: int| 0 <= j < i ==> #[trigger] self.entries@[j].0 != *k,
        {
            if self.entries[i].0.same_node(k) {
                return Some(i);
            }
        }
        None
    }

    /// Returns true if the map has an entry with key `k`.
    pub fn contains_key(&self, k: &K) -> (found: bool)
        requires
            self.wf(),
        ensures
            found == self@.dom().contains(*k),
    {
        self.position(k).is_some()
    }

    /// Returns the value of key `k`, if the map has one.
    pub fn get(&self, k: &K) -> (value: Option<V>)
        requires
            self.wf(),
        ensures
            value is Some <==> self@.dom().contains(*k),
            value matches Some(v) ==> v == self@[*k],
    {
        match self.position(k) {
            Some(i) => {
                proof {
                    lemma_entry_value(self.entries@, i as int);
                }
                Some(self.entries[i].1)
            },
            None => None,
        }
    }

    /// Sets the value of key `k`, replacing an earlier one.
    /// A new key goes after all others.
    pub fn insert(&mut self, k: K, v: V)
        requires
            old(self).wf(),
        ensures
            final(self).wf(),
            final(self)@ == old(self)@.insert(k, v),
            old(self)@.dom().contains(k) ==> final(self).spec_keys() == old(self).spec_keys(),
            !old(self)@.dom().contains(k) ==> final(self).spec_keys() == old(self).spec_keys().push(k),
    {
        let ghost s = self.entries@;
        match self.position(&k) {
            Some(i) => {
                self.entries.set(i, (k, v));
                proof {
                    let t = self.entries@;
                    assert(t == s.update(i as int, (k, v)));
                    assert(distinct_keys(t)) by {
                        assert forall|a: int, b: int| 0 <= a < t.len() && 0 <= b < t.len() && a != b implies #[trigger] t[a].0 != #[trigger] t[b].0 by {
                            assert(t[a].0 == s[a].0 && t[b].0 == s[b].0);
                        }
                    }
                    lemma_update_map(s, i as int, k, v);
                    assert(entry_keys(t) =~= entry_keys(s));
                }
            },
            None => {
                self.entries.push((k, v));
                proof {
                    let t = self.entries@;
                    assert(t == s.push((k, v)));
                    assert(distinct_keys(t)) by {
                        assert forall|a: int, b: int| 0 <= a < t.len() && 0 <= b < t.len() && a != b implies #[trigger] t[a].0 != #[trigger] t[b].0 by {
                            if a < s.len() && b < s.len() {
                                assert(t[a] == s[a] && t[b] == s[b]);
                            } else if a < s.len() {
                                assert(t[a] == s[a]);
                                assert(s[a].0 != k);
                            } else {
                                assert(t[b] == s[b]);
                                assert(s[b].0 != k);
                            }
                        }
                    }
                    lemma_push_map(s, k, v);
                    assert(entry_keys(t) =~= entry_keys(s).push(k));
                }
            },
        }
    }

    /// Removes the entry with key `k`, if there is one; the other keys keep their order.
    pub fn remove(&mut self, k: &K)
        requires
            old(self).wf(),
        ensures
            final(self).wf(),
            final(self)@ == old(self)@.remove(*k),
    {
        let ghost s = self.entries@;
        match self.position(k) {
            Some(i) => {
                let _ = self.entries.remove(i);
                proof {
                    let t = self.entries@;
                    assert(t == s.remove(i as int));
                    assert(distinct_keys(t)) by {
                        assert forall|a: int, b: int| 0 <= a < t.len() && 0 <= b < t.len() && a != b implies #[trigger] t[a].0 != #[trigger] t[b].0 by {
                            let a2 = if a < i { a } else { a + 1 };
                            let b2 = if b < i { b } else { b + 1 };
                            assert(t[a] == s[a2] && t[b] == s[b2]);
                        }
                    }
                    lemma_remove_map(s, i as int);
                }
            },
            None => {
                assert(s.len() == self.entries@.len());
                assert(self@ =~= old(self)@.remove(*k));
            },
        }
    }

    /// Returns the keys, in the order in which they were first inserted.
    pub fn keys(&self) -> (keys: Vec<K>)
        ensures
            keys@ == self.spec_keys(),
    {
        let mut keys: Vec<K> = Vec::with_capacity(self.entries.len());
        for i in 0..self.entries.len()
            invariant
                keys@ == entry_keys(self.entries@).take(i as int),
        {
            keys.push(self.entries[i].0);
            assert(keys@ =~= entry_keys(self.entries@).take(i as int + 1));
        }
        assert(keys@ =~= entry_keys(self.entries@));
        keys
    }
}

/// Overwriting the entry of an existing key updates that key in the map view.
proof fn lemma_update_map<K, V>(s: Seq<(K, V)>, i: int, k: K, v: V)
    requires
        distinct_keys(s),
        0 <= i < s.len(),
        s[i].0 == k,
        distinct_keys(s.update(i, (k, v))),
    ensures
        entries_map(s.update(i, (k, v))) == entries_map(s).insert(k, v),
{
    let t = s.update(i, (k, v));
    let lhs = entries_map(t);
    let rhs = entries_map(s).insert(k, v);
    assert forall|x: K| lhs.dom().contains(x) <==> rhs.dom().contains(x) by {
        if lhs.dom().contains(x) {
            let j = choose|j: int| 0 <= j < t.len() && #[trigger] t[j].0 == x;
            if j != i {
                assert(s[j].0 == x);
            }
        }
        if rhs.dom().contains(x) && x != k {
            let j = choose|j: int| 0 <= j < s.len() && #[trigger] s[j].0 == x;
            assert(t[j].0 == x);
        }
        if x == k {
            assert(t[i].0 == x);
        }
    }
    assert forall|x: K| lhs.dom().contains(x) implies lhs[x] == rhs[x] by {
        let j = choose|j: int| 0 <= j < t.len() && #[trigger] t[j].0 == x;
        lemma_entry_value(t, j);
        if j == i {
        } else {
            assert(s[j] == t[j]);
            lemma_entry_value(s, j);
        }
    }
    assert(lhs =~= rhs);
}

/// Appending an entry for a new key inserts that key into the map view.
proof fn lemma_push_map<K, V>(s: Seq<(K, V)>, k: K, v: V)
    requires
        distinct_keys(s),
        distinct_keys(s.push((k, v))),
    ensures
        entries_map(s.push((k, v))) == entries_map(s).insert(k, v),
{
    let t = s.push((k, v));
    let lhs = entries_map(t);
    let rhs = entries_map(s).insert(k, v);
    assert forall|x: K| lhs.dom().contains(x) <==> rhs.dom().contains(x) by {
        if lhs.dom().contains(x) {
            let j = choose|j: int| 0 <= j < t.len() && #[trigger] t[j].0 == x;
            if j < s.len() {
                assert(s[j].0 == x);
            }
        }
        if rhs.dom().contains(x) && x != k {
            let j = choose|j: int| 0 <= j < s.len() && #[trigger] s[j].0 == x;
            assert(t[j].0 == x);
        }
        if x == k {
            assert(t[s.len() as int].0 == x);
        }
    }
    assert forall|x: K| lhs.dom().contains(x) implies lhs[x] == rhs[x] by {
        let j = choose|j: int| 0 <= j < t.len() && #[trigger] t[j].0 == x;
        lemma_entry_value(t, j);
        if j < s.len() {
            assert(s[j] == t[j]);
            assert(t[j].0 != t[s.len() as int].0);
            lemma_entry_value(s, j);
        }
    }
    assert(lhs =~= rhs);
}

/// Removing an entry removes its key from the map view.
proof fn lemma_remove_map<K, V>(s: Seq<(K, V)>, i: int)
    requires
        distinct_keys(s),
        0 <= i < s.len(),
        distinct_keys(s.remove(i)),
    ensures
        entries_map(s.remove(i)) == entries_map(s).remove(s[i].0),
{
    let t = s.remove(i);
    let k = s[i].0;
    let lhs = entries_map(t);
    let rhs = entries_map(s).remove(k);
    assert forall|x: K| lhs.dom().contains(x) <==> rhs.dom().contains(x) by {
        if lhs.dom().contains(x) {
            let j = choose|j: int| 0 <= j < t.len() && #[trigger] t[j].0 == x;
            let j2 = if j < i { j } else { j + 1 };
            assert(t[j] == s[j2]);
            assert(s[j2].0 == x);
        }
        if rhs.dom().contains(x) {
            let j = choose|j: int| 0 <= j < s.len() && #[trigger] s[j].0 == x;
            assert(j != i);
            let j2 = if j < i { j } else { j - 1 };
            assert(t[j2] == s[j]);
            assert(t[j2].0 == x);
        }
    }
    assert forall|x: K| lhs.dom().contains(x) implies lhs[x] == rhs[x] by {
        let j = choose|j: int| 0 <= j < t.len() && #[trigger] t[j].0 == x;
        lemma_entry_value(t, j);
        let j2 = if j < i { j } else { j + 1 };
        assert(t[j] == s[j2]);
        lemma_entry_value(s, j2);
    }
    assert(lhs =~= rhs);
}

} // verus!
