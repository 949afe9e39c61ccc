//! A fixed-capacity cache that evicts the least recently used entry.
//!
//! The cache is modelled as a sequence of `(key, value)` pairs ordered from
//! most recently used (index 0) to least recently used (last index), with
//! no key occurring twice. Every operation's contract states exactly how it
//! transforms that sequence, so recency order — and with it the choice of
//! eviction victim — is pinned down completely.

use vstd::prelude::*;
use crate::keys::clone_is_exact;
use crate::keys::eq_is_exact;

verus! {

/// True when no two entries of `s` share a key.
pub open spec fn distinct_keys<K, V>(s: Seq<(K, V)>) -> bool {
    forall|i: int, j: int|
        0 <= i < j < s.len() ==> (#[trigger] s[i]).0 != (#[trigger] s[j]).0
}

/// True when some entry of `s` has key `k`.
pub open spec fn has_key<K, V>(s: Seq<(K, V)>, k: K) -> bool {
    exists|i: int| 0 <= i < s.len() && (#[trigger] s[i]).0 == k
}

/// The value stored for `k`: the value of the first entry with key `k`.
pub open spec fn lookup<K, V>(s: Seq<(K, V)>, k: K) -> Option<V>
    decreases s.len(),
{
    if s.len() == 0 {
        None
    } else if s[0].0 == k {
        Some(s[0].1)
    } else {
        lookup(s.drop_first(), k)
    }
}

/// `s` with the first entry keyed `k` removed (unchanged if `k` is absent).
pub open spec fn remove_key<K, V>(s: Seq<(K, V)>, k: K) -> Seq<(K, V)>
    decreases s.len(),
{
    if s.len() == 0 {
        s
    } else if s[0].0 == k {
        s.drop_first()
    } else {
        seq![s[0]] + remove_key(s.drop_first(), k)
    }
}

/// The keys of `s`, in the same order.
pub open spec fn keys_of<K, V>(s: Seq<(K, V)>) -> Seq<K> {
    s.map_values(|p: (K, V)| p.0)
}

/// At the unique index of key `s[i].0`, removal by key and removal by
/// index agree, and `lookup` finds the entry's value.
proof fn lemma_remove_at_index<K, V>(s: Seq<(K, V)>, i: int)
    requires
        distinct_keys(s),
        0 <= i < s.len(),
    ensures
        lookup(s, s[i].0) == Some(s[i].1),
        remove_key(s, s[i].0) == s.remove(i),
        distinct_keys(s.remove(i)),
        !has_key(s.remove(i), s[i].0),
    decreases i,
{
    let k = s[i].0;
    assert(distinct_keys(s.drop_first())) by {
        assert forall|p: int, q: int| 0 <= p < q < s.drop_first().len() implies
            (#[trigger] s.drop_first()[p]).0 != (#[trigger] s.drop_first()[q]).0 by {
            assert(s.drop_first()[p] == s[p + 1]);
            assert(s.drop_first()[q] == s[q + 1]);
        }
    }
    if i == 0 {
        assert(remove_key(s, k) =~= s.remove(0));
    } else {
        assert(s[0].0 != k);
        assert(s.drop_first()[i - 1] == s[i]);
        lemma_remove_at_index(s.drop_first(), i - 1);
        assert(lookup(s, k) == lookup(s.drop_first(), k));
        assert(remove_key(s, k) == seq![s[0]] + remove_key(s.drop_first(), k));
        assert(seq![s[0]] + s.drop_first().remove(i - 1) =~= s.remove(i));
    }
    assert(distinct_keys(s.remove(i)) && !has_key(s.remove(i), k)) by {
        let t = s.remove(i);
        assert forall|p: int| 0 <= p < t.len() implies (#[trigger] t[p]) == (if p < i {
            s[p]
        } else {
            s[p + 1]
        }) by {}
        assert forall|p: int, q: int| 0 <= p < q < t.len() implies
            (#[trigger] t[p]).0 != (#[trigger] t[q]).0 by {}
        assert forall|p: int| 0 <= p < t.len() implies (#[trigger] t[p]).0 != k by {}
    }
}

/// A key is absent exactly when `lookup` finds nothing.
pub proof fn lemma_lookup_absent<K, V>(s: Seq<(K, V)>, k: K)
    ensures
        has_key(s, k) <==> lookup(s, k) is Some,
    decreases s.len(),
{
    if s.len() > 0 && s[0].0 != k {
        lemma_lookup_absent(s.drop_first(), k);
        assert forall|i: int| 0 <= i < s.len() && (#[trigger] s[i]).0 == k implies
            has_key(s.drop_first(), k) by {
            assert(s.drop_first()[i - 1] == s[i]);
        }
        if has_key(s.drop_first(), k) {
            let i = choose|i: int| 0 <= i < s.drop_first().len()
                && (#[trigger] s.drop_first()[i]).0 == k;
            assert(s[i + 1] == s.drop_first()[i]);
        }
    }
}

/// Law: an entry just placed at the front is what the cache returns for
/// its key, and entries for every other key are unaffected. With `put`'s
/// and `get`'s contracts this is the round trip `put(k, v); get(k) ==
/// Some(v)`.
pub proof fn lemma_front_entry<K, V>(t: Seq<(K, V)>, k: K, v: V)
    ensures
        lookup(seq![(k, v)] + t, k) == Some(v),
        has_key(seq![(k, v)] + t, k),
        forall|k2: K| k2 != k ==> lookup(seq![(k, v)] + t, k2) == lookup(t, k2),
        forall|k2: K| k2 != k ==> (has_key(seq![(k, v)] + t, k2) <==> has_key(t, k2)),
{
    let u = seq![(k, v)] + t;
    assert(u[0] == (k, v));
    assert(u.drop_first() =~= t);
    assert forall|k2: K| k2 != k implies (has_key(u, k2) <==> has_key(t, k2)) by {
        if has_key(u, k2) {
            let i = choose|i: int| 0 <= i < u.len() && (#[trigger] u[i]).0 == k2;
            assert(t[i - 1] == u[i]);
        }
        if has_key(t, k2) {
            let i = choose|i: int| 0 <= i < t.len() && (#[trigger] t[i]).0 == k2;
            assert(u[i + 1] == t[i]);
        }
    }
}

/// Law: removing the entry for one key leaves the entry of every other
/// key in place with its value unchanged. With the operation contracts,
/// a key stored and not since removed or evicted keeps its last value.
pub proof fn lemma_remove_key_other<K, V>(s: Seq<(K, V)>, k: K, k2: K)
    requires
        k2 != k,
    ensures
        lookup(remove_key(s, k), k2) == lookup(s, k2),
        has_key(remove_key(s, k), k2) <==> has_key(s, k2),
    decreases s.len(),
{
    lemma_lookup_absent(s, k2);
    lemma_lookup_absent(remove_key(s, k), k2);
    if s.len() == 0 {
    } else if s[0].0 == k {
        assert(remove_key(s, k) == s.drop_first());
        assert(lookup(s, k2) == lookup(s.drop_first(), k2));
    } else {
        lemma_remove_key_other(s.drop_first(), k, k2);
        let u = seq![s[0]] + remove_key(s.drop_first(), k);
        assert(remove_key(s, k) == u);
        assert(u[0] == s[0]);
        assert(u.drop_first() =~= remove_key(s.drop_first(), k));
        if s[0].0 == k2 {
            assert(lookup(u, k2) == Some(s[0].1));
            assert(lookup(s, k2) == Some(s[0].1));
        } else {
            assert(lookup(u, k2) == lookup(remove_key(s.drop_first(), k), k2));
            assert(lookup(s, k2) == lookup(s.drop_first(), k2));
        }
        lemma_lookup_absent(s.drop_first(), k2);
        lemma_lookup_absent(remove_key(s.drop_first(), k), k2);
    }
}

/// Law: when a new key is stored in a full cache, the entry evicted is
/// the last of the recency sequence — the least recently touched key.
/// That key alone disappears; the new key is present with the new value,
/// and every other key keeps its value.
pub proof fn lemma_lru_eviction<K, V>(s: Seq<(K, V)>, k: K, v: V)
    requires
        distinct_keys(s),
        !has_key(s, k),
        s.len() > 0,
    ensures
        ({
            let t = seq![(k, v)] + s.drop_last();
            let evicted = s.last().0;
            &&& !has_key(t, evicted)
            &&& lookup(t, k) == Some(v)
            &&& forall|k2: K|
                k2 != evicted && k2 != k ==> lookup(t, k2) == lookup(s, k2)
        }),
{
    let t = seq![(k, v)] + s.drop_last();
    let evicted = s.last().0;
    lemma_front_entry(s.drop_last(), k, v);
    assert(k != evicted);
    assert(!has_key(s.drop_last(), evicted)) by {
        assert forall|i: int| 0 <= i < s.drop_last().len() implies
            (#[trigger] s.drop_last()[i]).0 != evicted by {
            assert(s.drop_last()[i] == s[i]);
            assert(s[i].0 != s[s.len() - 1].0);
        }
    }
    assert forall|k2: K| k2 != evicted && k2 != k implies lookup(t, k2) == lookup(s, k2) by {
        lemma_lookup_drop_last(s, k2);
    }
}

/// `lookup` ignores the final entry when looking for a different key.
proof fn lemma_lookup_drop_last<K, V>(s: Seq<(K, V)>, k2: K)
    requires
        s.len() > 0,
        k2 != s.last().0,
    ensures
        lookup(s.drop_last(), k2) == lookup(s, k2),
    decreases s.len(),
{
    if s.len() == 1 {
        assert(s.drop_last() =~= Seq::<(K, V)>::empty());
    } else if s[0].0 == k2 {
        assert(s.drop_last()[0] == s[0]);
        assert(lookup(s.drop_last(), k2) == Some(s[0].1));
        assert(lookup(s, k2) == Some(s[0].1));
    } else {
        assert(s.drop_first().last() == s.last());
        lemma_lookup_drop_last(s.drop_first(), k2);
        assert(s.drop_last()[0] == s[0]);
        assert(s.drop_last().drop_first() =~= s.drop_first().drop_last());
        assert(lookup(s.drop_last(), k2) == lookup(s.drop_first().drop_last(), k2));
        assert(lookup(s, k2) == lookup(s.drop_first(), k2));
    }
}

/// An LRU (least recently used) cache.
///
/// Holds at most `capacity` key-value pairs; inserting a new key into a
/// full cache evicts the entry that was touched (by `get` or `put`) least
/// recently. Entries are kept in recency order, most recent first.
pub struct LRUCache<K, V> where K: Ord + Clone {
    capacity: usize,
    entries: Vec<(K, V)>,
}

impl<K: Ord + Clone, V> View for LRUCache<K, V> {
    type V = Seq<(K, V)>;

    closed spec fn view(&self) -> Seq<(K, V)> {
        self.entries@
    }
}

impl<K: Ord + Clone, V> LRUCache<K, V> {
    /// The capacity fixed at construction.
    pub closed spec fn spec_capacity(&self) -> nat {
        self.capacity as nat
    }

    /// Well-formedness: positive capacity, never over capacity, and (when
    /// `==` on `K` is exact) no key stored twice. Established by `new` and
    /// preserved by every operation.
    pub open spec fn wf(&self) -> bool {
        &&& self.spec_capacity() >= 1
        &&& self@.len() <= self.spec_capacity()
        &&& (eq_is_exact::<K>() ==> distinct_keys(self@))
    }

    /// Creates an empty cache that can hold `capacity` entries.
    pub fn new(capacity: usize) -> (r: Self)
        requires
            capacity >= 1,
        ensures
            r.wf(),
            r@ == Seq::<(K, V)>::empty(),
            r.spec_capacity() == capacity,
    {
        LRUCache { capacity, entries: Vec::new() }
    }

    /// Returns the capacity of the cache.
    pub fn capacity(&self) -> (r: usize)
        ensures
            r == self.spec_capacity(),
    {
        self.capacity
    }

    /// Returns the number of entries currently stored.
    pub fn len(&self) -> (r: usize)
        requires
            self.wf(),
        ensures
            r == self@.len(),
            r <= self.spec_capacity(),
    {
        self.entries.len()
    }

    /// Returns `true` if the cache holds no entries.
    pub fn is_empty(&self) -> (r: bool)
        ensures
            r == (self@.len() == 0),
    {
        self.entries.len() == 0
    }

    /// Returns `true` if the cache is at full capacity.
    pub fn is_full(&self) -> (r: bool)
        ensures
            r == (self@.len() >= self.spec_capacity()),
    {
        self.entries.len() >= self.capacity
    }

    /// Index of the entry with the given key, scanning from the most
    /// recently used end.
    fn find(&self, key: &K) -> (r: Option<usize>)
        ensures
            r matches Some(i) ==> i < self@.len(),
            eq_is_exact::<K>() ==> match r {
                Some(i) => i < self@.len() && self@[i as int].0 == *key && has_key(self@, *key),
                None => !has_key(self@, *key),
            },
    {
        let n = self.entries.len();
        for i in 0..n
            invariant
                n == self@.len(),
                eq_is_exact::<K>() ==> forall|j: int| 0 <= j < i ==> (#[trigger] self@[j]).0 != *key,
        {
            if self.entries[i].0 == *key {
                return Some(i);
            }
        }
        None
    }

    /// Returns `true` if an entry with this key is present; recency order
    /// is not affected.
    pub fn contains(&self, key: &K) -> (r: bool)
        ensures
            eq_is_exact::<K>() ==> r == has_key(self@, *key),
    {
        self.find(key).is_some()
    }

    /// Returns the value stored for `key` and marks the entry as the most
    /// recently used; absent keys leave the cache untouched.
    pub fn get(&mut self, key: &K) -> (r: Option<&V>)
        requires
            old(self).wf(),
        ensures
            final(self).wf(),
            final(self).spec_capacity() == old(self).spec_capacity(),
            final(self)@.len() <= final(self).spec_capacity(),
            eq_is_exact::<K>() ==> ({
                let s = old(self)@;
                match r {
                    Some(v) => {
                        &&& has_key(s, *key)
                        &&& Some(*v) == lookup(s, *key)
                        &&& final(self)@ == seq![(*key, *v)] + remove_key(s, *key)
                    },
                    None => {
                        &&& !has_key(s, *key)
                        &&& final(self)@ == s
                    },
                }
            }),
    {
        match self.find(key) {
            Some(i) => {
                proof {
                    if eq_is_exact::<K>() {
                        lemma_remove_at_index(self@, i as int);
                    }
                }
                let e = self.entries.remove(i);
                self.entries.insert(0, e);
                proof {
                    assert(self.entries@ =~= seq![self.entries@[0]]
                        + old(self)@.remove(i as int));
                }
                Some(&self.entries[0].1)
            },
            None => None,
        }
    }

    /// Returns the value stored for `key` without altering recency order.
    pub fn peek(&self, key: &K) -> (r: Option<&V>)
        requires
            self.wf(),
        ensures
            eq_is_exact::<K>() ==> match r {
                Some(v) => has_key(self@, *key) && Some(*v) == lookup(self@, *key),
                None => !has_key(self@, *key),
            },
    {
        match self.find(key) {
            Some(i) => {
                proof {
                    if eq_is_exact::<K>() {
                        lemma_remove_at_index(self@, i as int);
                    }
                }
                Some(&self.entries[i].1)
            },
            None => None,
        }
    }

    /// Stores `value` under `key`.
    ///
    /// An existing entry is updated in place and becomes the most recently
    /// used; nothing is evicted. A new key is inserted at the front; if the
    /// cache was full, the least recently used entry is evicted first and
    /// returned.
    pub fn put(&mut self, key: K, value: V) -> (r: Option<(K, V)>)
        requires
            old(self).wf(),
        ensures
            final(self).wf(),
            final(self).spec_capacity() == old(self).spec_capacity(),
            final(self)@.len() <= final(self).spec_capacity(),
            eq_is_exact::<K>() ==> ({
                let s = old(self)@;
                if has_key(s, key) {
                    &&& final(self)@ == seq![(key, value)] + remove_key(s, key)
                    &&& r is None
                } else if s.len() < old(self).spec_capacity() {
                    &&& final(self)@ == seq![(key, value)] + s
                    &&& r is None
                } else {
                    &&& final(self)@ == seq![(key, value)] + s.drop_last()
                    &&& r == Some(s.last())
                }
            }),
    {
        match self.find(&key) {
            Some(i) => {
                proof {
                    if eq_is_exact::<K>() {
                        lemma_remove_at_index(self@, i as int);
                    }
                }
                let _ = self.entries.remove(i);
                self.entries.insert(0, (key, value));
                proof {
                    assert(self.entries@ =~= seq![self.entries@[0]]
                        + old(self)@.remove(i as int));
                }
                None
            },
            None => {
                let evicted = if self.entries.len() >= self.capacity {
                    self.entries.pop()
                } else {
                    None
                };
                self.entries.insert(0, (key, value));
                proof {
                    assert(self.entries@ =~= seq![self.entries@[0]]
                        + self.entries@.drop_first());
                }
                evicted
            },
        }
    }

    /// Removes the entry for `key`, returning its value if one was stored.
    pub fn remove(&mut self, key: &K) -> (r: Option<V>)
        requires
            old(self).wf(),
        ensures
            final(self).wf(),
            final(self).spec_capacity() == old(self).spec_capacity(),
            final(self)@.len() <= final(self).spec_capacity(),
            eq_is_exact::<K>() ==> ({
                let s = old(self)@;
                match r {
                    Some(v) => {
                        &&& has_key(s, *key)
                        &&& Some(v) == lookup(s, *key)
                        &&& final(self)@ == remove_key(s, *key)
                    },
                    None => {
                        &&& !has_key(s, *key)
                        &&& final(self)@ == s
                    },
                }
            }),
    {
        match self.find(key) {
            Some(i) => {
                proof {
                    if eq_is_exact::<K>() {
                        lemma_remove_at_index(self@, i as int);
                    }
                }
                let e = self.entries.remove(i);
                Some(e.1)
            },
            None => None,
        }
    }

    /// Removes every entry.
    pub fn clear(&mut self)
        requires
            old(self).wf(),
        ensures
            final(self).wf(),
            final(self).spec_capacity() == old(self).spec_capacity(),
            final(self)@ == Seq::<(K, V)>::empty(),
    {
        self.entries.clear();
    }

    /// The keys currently stored, most recently used first.
    pub fn keys(&self) -> (r: Vec<K>)
        ensures
            r@.len() == self@.len(),
            clone_is_exact::<K>() ==> r@ == keys_of(self@),
    {
        let mut out: Vec<K> = Vec::new();
        let n = self.entries.len();
        for i in 0..n
            invariant
                n == self@.len(),
                out@.len() == i,
                clone_is_exact::<K>() ==> out@ == keys_of(self@.take(i as int)),
        {
            let e = &self.entries[i];
            let k = e.0.clone();
            proof {
                if clone_is_exact::<K>() {
                    assert(vstd::pervasive::cloned::<K>(self@[i as int].0, k));
                    assert(self@.take(i + 1).map_values(|p: (K, V)| p.0)
                        =~= self@.take(i as int).map_values(|p: (K, V)| p.0).push(
                        self@[i as int].0));
                }
            }
            out.push(k);
        }
        proof {
            assert(self@.take(n as int) =~= self@);
        }
        out
    }

    /// A snapshot of the entries, most recently used first.
    pub fn iter(&self) -> (r: Vec<(K, V)>) where V: Clone
        ensures
            r@.len() == self@.len(),
            clone_is_exact::<K>() && clone_is_exact::<V>() ==> r@ == self@,
    {
        let mut out: Vec<(K, V)> = Vec::new();
        let n = self.entries.len();
        for i in 0..n
            invariant
                n == self@.len(),
                out@.len() == i,
                clone_is_exact::<K>() && clone_is_exact::<V>() ==> out@ == self@.take(i as int),
        {
            let e = &self.entries[i];
            let k = e.0.clone();
            let v = e.1.clone();
            proof {
                if clone_is_exact::<K>() && clone_is_exact::<V>() {
                    assert(vstd::pervasive::cloned::<K>(self@[i as int].0, k));
                    assert(vstd::pervasive::cloned::<V>(self@[i as int].1, v));
                    assert(self@.take(i + 1) =~= self@.take(i as int).push(self@[i as int]));
                }
            }
            out.push((k, v));
        }
        proof {
            assert(self@.take(n as int) =~= self@);
        }
        out
    }
}

} // verus!
