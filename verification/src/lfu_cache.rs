//! A fixed-capacity cache that evicts the least frequently used entry.
//!
//! The cache is modelled as a sequence of `(key, value, frequency)`
//! triples. A key's frequency starts at 1 when it is inserted and rises by
//! one on every `get` or value-updating `put` (saturating at the machine
//! limit). Whenever a key's frequency changes, and when a key is first
//! inserted, its entry moves to the back of the sequence. Entries that
//! share a frequency therefore appear in the order in which they entered
//! that frequency tier, so the eviction victim — the entry of minimum
//! frequency that entered its tier first — is the first entry of minimum
//! frequency in the sequence. Every operation's contract states exactly
//! how it transforms the sequence.

use vstd::prelude::*;
use crate::keys::eq_is_exact;

verus! {

/// True when no two entries of `s` share a key.
pub open spec fn distinct_keys<K, V>(s: Seq<(K, V, usize)>) -> bool {
    forall|i: int, j: int|
        0 <= i < j < s.len() ==> (#[trigger] s[i]).0 != (#[trigger] s[j]).0
}

/// True when some entry of `s` has key `k`.
pub open spec fn has_key<K, V>(s: Seq<(K, V, usize)>, k: K) -> bool {
    exists|i: int| 0 <= i < s.len() && (#[trigger] s[i]).0 == k
}

/// The value and frequency stored for `k` (first entry with key `k`).
pub open spec fn lookup<K, V>(s: Seq<(K, V, usize)>, k: K) -> Option<(V, usize)>
    decreases s.len(),
{
    if s.len() == 0 {
        None
    } else if s[0].0 == k {
        Some((s[0].1, s[0].2))
    } else {
        lookup(s.drop_first(), k)
    }
}

/// `s` with the first entry keyed `k` removed (unchanged if `k` is absent).
pub open spec fn remove_key<K, V>(s: Seq<(K, V, usize)>, k: K) -> Seq<(K, V, usize)>
    decreases s.len(),
{
    if s.len() == 0 {
        s
    } else if s[0].0 == k {
        s.drop_first()
    } else {
        seq![s[0]] + remove_key(s.drop_first(), k)
    }
}

/// A frequency one higher, saturating at the machine limit.
pub open spec fn bumped(f: usize) -> usize {
    if f < usize::MAX {
        (f + 1) as usize
    } else {
        f
    }
}

/// `i` is the position of the eviction victim in `s`: no entry has a
/// strictly lower frequency, and every earlier entry has a strictly higher
/// one. Because entries of equal frequency sit in the order they entered
/// that frequency tier, this is the least frequently used entry, ties
/// going to the key that entered the minimal tier first.
pub open spec fn is_evict_index<K, V>(s: Seq<(K, V, usize)>, i: int) -> bool {
    &&& 0 <= i < s.len()
    &&& forall|j: int| 0 <= j < s.len() ==> (#[trigger] s[j]).2 >= s[i].2
    &&& forall|j: int| 0 <= j < i ==> (#[trigger] s[j]).2 > s[i].2
}

/// The position of the eviction victim in a non-empty `s`.
pub open spec fn evict_index<K, V>(s: Seq<(K, V, usize)>) -> int {
    choose|i: int| is_evict_index(s, i)
}

/// A non-empty sequence has exactly one eviction position.
pub proof fn lemma_evict_index<K, V>(s: Seq<(K, V, usize)>)
    requires
        s.len() > 0,
    ensures
        is_evict_index(s, evict_index(s)),
        forall|i: int| is_evict_index(s, i) ==> i == evict_index(s),
    decreases s.len(),
{
    if s.len() == 1 {
        assert(is_evict_index(s, 0));
    } else {
        let t = s.drop_first();
        lemma_evict_index(t);
        let r = evict_index(t);
        assert(forall|j: int| 0 <= j < t.len() ==> (#[trigger] t[j]) == s[j + 1]);
        if s[0].2 <= t[r].2 {
            assert(is_evict_index(s, 0)) by {
                assert forall|j: int| 0 <= j < s.len() implies (#[trigger] s[j]).2 >= s[0].2 by {
                    if j > 0 {
                        assert(s[j] == t[j - 1]);
                        assert(t[j - 1].2 >= t[r].2);
                    }
                }
            }
        } else {
            assert(is_evict_index(s, r + 1)) by {
                assert forall|j: int| 0 <= j < s.len() implies (#[trigger] s[j]).2 >= s[r + 1].2 by {
                    if j > 0 {
                        assert(s[j] == t[j - 1]);
                        assert(t[j - 1].2 >= t[r].2);
                    }
                }
                assert forall|j: int| 0 <= j < r + 1 implies (#[trigger] s[j]).2 > s[r + 1].2 by {
                    if j > 0 {
                        assert(s[j] == t[j - 1]);
                        assert(t[j - 1].2 > t[r].2);
                    }
                }
            }
        }
        let w = choose|i: int| is_evict_index(s, i);
        assert forall|a: int, b: int| is_evict_index(s, a) && is_evict_index(s, b) implies a == b by {
            if a < b {
                assert(s[a].2 > s[b].2);
                assert(s[a].2 >= s[b].2);
            }
            if b < a {
                assert(s[b].2 > s[a].2);
            }
        }
    }
}

/// At the unique index of key `s[i].0`, removal by key and removal by
/// index agree, and `lookup` finds the entry.
proof fn lemma_remove_at_index<K, V>(s: Seq<(K, V, usize)>, i: int)
    requires
        distinct_keys(s),
        0 <= i < s.len(),
    ensures
        lookup(s, s[i].0) == Some((s[i].1, s[i].2)),
        remove_key(s, s[i].0) == s.remove(i),
        distinct_keys(s.remove(i)),
        !has_key(s.remove(i), s[i].0),
    decreases i,
{
    let k = s[i].0;
    assert(distinct_keys(s.drop_first())) by {
        assert forall|p: int, q: int| 0 <= p < q < s.drop_first().len() implies
            (#[trigger] s.drop_first()[p]).0 != (#[trigger] s.drop_first()[q]).0 by {
            assert(s.drop_first()[p] == s[p + 1]);
            assert(s.drop_first()[q] == s[q + 1]);
        }
    }
    if i == 0 {
        assert(remove_key(s, k) =~= s.remove(0));
    } else {
        assert(s[0].0 != k);
        assert(s.drop_first()[i - 1] == s[i]);
        lemma_remove_at_index(s.drop_first(), i - 1);
        assert(remove_key(s, k) == seq![s[0]] + remove_key(s.drop_first(), k));
        assert(seq![s[0]] + s.drop_first().remove(i - 1) =~= s.remove(i));
    }
    assert(distinct_keys(s.remove(i)) && !has_key(s.remove(i), k)) by {
        let t = s.remove(i);
        assert forall|p: int| 0 <= p < t.len() implies (#[trigger] t[p]) == (if p < i {
            s[p]
        } else {
            s[p + 1]
        }) by {}
        assert forall|p: int, q: int| 0 <= p < q < t.len() implies
            (#[trigger] t[p]).0 != (#[trigger] t[q]).0 by {}
        assert forall|p: int| 0 <= p < t.len() implies (#[trigger] t[p]).0 != k by {}
    }
}

/// A key is absent exactly when `lookup` finds nothing.
pub proof fn lemma_lookup_absent<K, V>(s: Seq<(K, V, usize)>, k: K)
    ensures
        has_key(s, k) <==> lookup(s, k) is Some,
    decreases s.len(),
{
    if s.len() > 0 && s[0].0 != k {
        lemma_lookup_absent(s.drop_first(), k);
        assert forall|i: int| 0 <= i < s.len() && (#[trigger] s[i]).0 == k implies
            has_key(s.drop_first(), k) by {
            assert(s.drop_first()[i - 1] == s[i]);
        }
        if has_key(s.drop_first(), k) {
            let i = choose|i: int| 0 <= i < s.drop_first().len()
                && (#[trigger] s.drop_first()[i]).0 == k;
            assert(s[i + 1] == s.drop_first()[i]);
        }
    }
}

/// Appending an entry for an absent key makes that entry what `lookup`
/// finds; entries for every other key are unaffected.
pub proof fn lemma_push_entry<K, V>(t: Seq<(K, V, usize)>, k: K, v: V, f: usize)
    requires
        !has_key(t, k),
    ensures
        lookup(t.push((k, v, f)), k) == Some((v, f)),
        has_key(t.push((k, v, f)), k),
        forall|k2: K| k2 != k ==> lookup(t.push((k, v, f)), k2) == lookup(t, k2),
        forall|k2: K| k2 != k ==> (has_key(t.push((k, v, f)), k2) <==> has_key(t, k2)),
    decreases t.len(),
{
    let u = t.push((k, v, f));
    assert(u.last() == (k, v, f));
    if t.len() == 0 {
        assert(u[0] == (k, v, f));
        assert(lookup(u, k) == Some((v, f)));
        assert forall|k2: K| k2 != k implies lookup(u, k2) == lookup(t, k2) by {
            assert(u.drop_first() =~= Seq::<(K, V, usize)>::empty());
            assert(lookup(u, k2) == lookup(u.drop_first(), k2));
            assert(lookup(u.drop_first(), k2) == None::<(V, usize)>);
            assert(lookup(t, k2) == None::<(V, usize)>);
        }
    } else {
        assert(t[0].0 != k);
        assert(!has_key(t.drop_first(), k)) by {
            if has_key(t.drop_first(), k) {
                let i = choose|i: int| 0 <= i < t.drop_first().len()
                    && (#[trigger] t.drop_first()[i]).0 == k;
                assert(t[i + 1] == t.drop_first()[i]);
            }
        }
        lemma_push_entry(t.drop_first(), k, v, f);
        assert(u[0] == t[0]);
        assert(u.drop_first() =~= t.drop_first().push((k, v, f)));
        assert(lookup(u, k) == lookup(t.drop_first().push((k, v, f)), k));
        assert forall|k2: K| k2 != k implies lookup(u, k2) == lookup(t, k2) by {
            if t[0].0 == k2 {
                assert(lookup(u, k2) == Some((u[0].1, u[0].2)));
                assert(lookup(t, k2) == Some((t[0].1, t[0].2)));
            } else {
                assert(lookup(u, k2) == lookup(t.drop_first().push((k, v, f)), k2));
                assert(lookup(t.drop_first().push((k, v, f)), k2) == lookup(t.drop_first(), k2));
                assert(lookup(t, k2) == lookup(t.drop_first(), k2));
            }
        }
    }
    assert forall|k2: K| k2 != k implies (has_key(u, k2) <==> has_key(t, k2)) by {
        if has_key(u, k2) {
            let i = choose|i: int| 0 <= i < u.len() && (#[trigger] u[i]).0 == k2;
            assert(u[i] == if i < t.len() {
                t[i]
            } else {
                (k, v, f)
            });
        }
        if has_key(t, k2) {
            let i = choose|i: int| 0 <= i < t.len() && (#[trigger] t[i]).0 == k2;
            assert(u[i] == t[i]);
        }
    }
}

/// Law: removing the entry for one key leaves the entry of every other
/// key in place with its value and frequency unchanged. With the
/// operation contracts, a key stored and not since removed or evicted
/// keeps its last value.
pub proof fn lemma_remove_key_other<K, V>(s: Seq<(K, V, usize)>, k: K, k2: K)
    requires
        k2 != k,
    ensures
        lookup(remove_key(s, k), k2) == lookup(s, k2),
        has_key(remove_key(s, k), k2) <==> has_key(s, k2),
    decreases s.len(),
{
    lemma_lookup_absent(s, k2);
    lemma_lookup_absent(remove_key(s, k), k2);
    if s.len() == 0 {
    } else if s[0].0 == k {
        assert(remove_key(s, k) == s.drop_first());
        assert(lookup(s, k2) == lookup(s.drop_first(), k2));
    } else {
        lemma_remove_key_other(s.drop_first(), k, k2);
        let u = seq![s[0]] + remove_key(s.drop_first(), k);
        assert(remove_key(s, k) == u);
        assert(u[0] == s[0]);
        assert(u.drop_first() =~= remove_key(s.drop_first(), k));
        if s[0].0 == k2 {
            assert(lookup(u, k2) == Some((s[0].1, s[0].2)));
            assert(lookup(s, k2) == Some((s[0].1, s[0].2)));
        } else {
            assert(lookup(u, k2) == lookup(remove_key(s.drop_first(), k), k2));
            assert(lookup(s, k2) == lookup(s.drop_first(), k2));
        }
        lemma_lookup_absent(s.drop_first(), k2);
        lemma_lookup_absent(remove_key(s.drop_first(), k), k2);
    }
}

/// Law: a touched key (by `get`, or `put` on an existing key) comes back
/// with the stored value and the raised frequency, and no other key's
/// entry changes. With the contracts this gives the round trip
/// `put(k, v); get(k) == Some(v)`.
pub proof fn lemma_lfu_touch<K, V>(s: Seq<(K, V, usize)>, k: K, v: V, f: usize)
    requires
        distinct_keys(s),
    ensures
        ({
            let t = remove_key(s, k).push((k, v, f));
            &&& lookup(t, k) == Some((v, f))
            &&& forall|k2: K| k2 != k ==> lookup(t, k2) == lookup(s, k2)
        }),
{
    lemma_remove_key_absent(s, k);
    lemma_push_entry(remove_key(s, k), k, v, f);
    assert forall|k2: K| k2 != k implies
        lookup(remove_key(s, k).push((k, v, f)), k2) == lookup(s, k2) by {
        lemma_remove_key_other(s, k, k2);
    }
}

/// After removal by key, the key is gone (given distinct keys).
proof fn lemma_remove_key_absent<K, V>(s: Seq<(K, V, usize)>, k: K)
    requires
        distinct_keys(s),
    ensures
        !has_key(remove_key(s, k), k),
{
    if has_key(s, k) {
        lemma_lookup_absent(s, k);
        let i = choose|i: int| 0 <= i < s.len() && (#[trigger] s[i]).0 == k;
        lemma_remove_at_index(s, i);
    } else {
        lemma_remove_key_same(s, k);
    }
}

/// Removing an absent key changes nothing.
proof fn lemma_remove_key_same<K, V>(s: Seq<(K, V, usize)>, k: K)
    requires
        !has_key(s, k),
    ensures
        remove_key(s, k) == s,
    decreases s.len(),
{
    if s.len() > 0 {
        assert(s[0].0 != k);
        assert(!has_key(s.drop_first(), k)) by {
            if has_key(s.drop_first(), k) {
                let i = choose|i: int| 0 <= i < s.drop_first().len()
                    && (#[trigger] s.drop_first()[i]).0 == k;
                assert(s[i + 1] == s.drop_first()[i]);
            }
        }
        lemma_remove_key_same(s.drop_first(), k);
        assert(remove_key(s, k) =~= s);
    }
}

/// Law: when a new key is stored in a full cache, the entry evicted sits
/// at `evict_index`: it has the minimum frequency, and among entries of
/// that frequency it entered the tier first. That key alone disappears;
/// the new key is present at frequency 1, and every other key keeps its
/// value and frequency.
pub proof fn lemma_lfu_eviction<K, V>(s: Seq<(K, V, usize)>, k: K, v: V)
    requires
        distinct_keys(s),
        !has_key(s, k),
        s.len() > 0,
    ensures
        ({
            let i0 = evict_index(s);
            let t = s.remove(i0).push((k, v, 1usize));
            &&& is_evict_index(s, i0)
            &&& !has_key(t, s[i0].0)
            &&& lookup(t, k) == Some((v, 1usize))
            &&& forall|k2: K|
                k2 != s[i0].0 && k2 != k ==> lookup(t, k2) == lookup(s, k2)
        }),
{
    lemma_evict_index(s);
    let i0 = evict_index(s);
    let evicted = s[i0].0;
    lemma_remove_at_index(s, i0);
    assert(k != evicted);
    assert(!has_key(s.remove(i0), k)) by {
        if has_key(s.remove(i0), k) {
            let i = choose|i: int| 0 <= i < s.remove(i0).len()
                && (#[trigger] s.remove(i0)[i]).0 == k;
            assert(s.remove(i0)[i] == if i < i0 {
                s[i]
            } else {
                s[i + 1]
            });
        }
    }
    lemma_push_entry(s.remove(i0), k, v, 1usize);
    assert forall|k2: K| k2 != evicted && k2 != k implies
        lookup(s.remove(i0).push((k, v, 1usize)), k2) == lookup(s, k2) by {
        lemma_remove_key_other(s, evicted, k2);
    }
}

/// An LFU (least frequently used) cache.
///
/// Holds at most `capacity` key-value pairs, each with an access
/// frequency. Inserting a new key into a full cache first evicts an entry
/// of minimum frequency; among those, the key that has been at that
/// frequency tier the longest goes.
pub struct LFUCache<K, V> where K: Ord + Clone {
    capacity: usize,
    entries: Vec<(K, V, usize)>,
}

impl<K: Ord + Clone, V> View for LFUCache<K, V> {
    type V = Seq<(K, V, usize)>;

    closed spec fn view(&self) -> Seq<(K, V, usize)> {
        self.entries@
    }
}

impl<K: Ord + Clone, V> LFUCache<K, V> {
    /// The capacity fixed at construction.
    pub closed spec fn spec_capacity(&self) -> nat {
        self.capacity as nat
    }

    /// Well-formedness: positive capacity, never over capacity, every
    /// frequency at least 1, and (when `==` on `K` is exact) no key stored
    /// twice. Established by `new` and preserved by every operation.
    pub open spec fn wf(&self) -> bool {
        &&& self.spec_capacity() >= 1
        &&& self@.len() <= self.spec_capacity()
        &&& forall|i: int| 0 <= i < self@.len() ==> (#[trigger] self@[i]).2 >= 1
        &&& (eq_is_exact::<K>() ==> distinct_keys(self@))
    }

    /// Creates an empty cache that can hold `capacity` entries.
    pub fn new(capacity: usize) -> (r: Self)
        requires
            capacity >= 1,
        ensures
            r.wf(),
            r@ == Seq::<(K, V, usize)>::empty(),
            r.spec_capacity() == capacity,
    {
        LFUCache { capacity, entries: Vec::new() }
    }

    /// Returns the capacity of the cache.
    pub fn capacity(&self) -> (r: usize)
        ensures
            r == self.spec_capacity(),
    {
        self.capacity
    }

    /// Returns the number of entries currently stored.
    pub fn len(&self) -> (r: usize)
        requires
            self.wf(),
        ensures
            r == self@.len(),
            r <= self.spec_capacity(),
    {
        self.entries.len()
    }

    /// Returns `true` if the cache holds no entries.
    pub fn is_empty(&self) -> (r: bool)
        ensures
            r == (self@.len() == 0),
    {
        self.entries.len() == 0
    }

    /// Index of the entry with the given key.
    fn find(&self, key: &K) -> (r: Option<usize>)
        ensures
            r matches Some(i) ==> i < self@.len(),
            eq_is_exact::<K>() ==> match r {
                Some(i) => i < self@.len() && self@[i as int].0 == *key && has_key(self@, *key),
                None => !has_key(self@, *key),
            },
    {
        let n = self.entries.len();
        for i in 0..n
            invariant
                n == self@.len(),
                eq_is_exact::<K>() ==> forall|j: int| 0 <= j < i ==> (#[trigger] self@[j]).0 != *key,
        {
            if self.entries[i].0 == *key {
                return Some(i);
            }
        }
        None
    }

    /// Position of the eviction victim: first entry of minimum frequency.
    fn victim_index(&self) -> (r: usize)
        requires
            self@.len() > 0,
        ensures
            is_evict_index(self@, r as int),
            r as int == evict_index(self@),
    {
        let mut best: usize = 0;
        let n = self.entries.len();
        for i in 1..n
            invariant
                n == self@.len(),
                best < i <= n,
                forall|j: int| 0 <= j < i ==> (#[trigger] self@[j]).2 >= self@[best as int].2,
                forall|j: int| 0 <= j < best ==> (#[trigger] self@[j]).2 > self@[best as int].2,
        {
            if self.entries[i].2 < self.entries[best].2 {
                best = i;
            }
        }
        proof {
            assert(is_evict_index(self@, best as int));
            lemma_evict_index(self@);
        }
        best
    }

    /// Returns `true` if an entry with this key is present; frequencies
    /// are not affected.
    pub fn contains(&self, key: &K) -> (r: bool)
        ensures
            eq_is_exact::<K>() ==> r == has_key(self@, *key),
    {
        self.find(key).is_some()
    }

    /// The access frequency recorded for `key`, if present. No side
    /// effect.
    pub fn frequency(&self, key: &K) -> (r: Option<usize>)
        requires
            self.wf(),
        ensures
            eq_is_exact::<K>() ==> match r {
                Some(f) => lookup(self@, *key) matches Some(p) && p.1 == f && f >= 1,
                None => !has_key(self@, *key),
            },
    {
        match self.find(key) {
            Some(i) => {
                proof {
                    if eq_is_exact::<K>() {
                        lemma_remove_at_index(self@, i as int);
                    }
                }
                Some(self.entries[i].2)
            },
            None => None,
        }
    }

    /// Returns the value stored for `key` and raises its frequency by
    /// one, moving the entry to the back of its new frequency tier;
    /// absent keys leave the cache untouched.
    pub fn get(&mut self, key: &K) -> (r: Option<&V>)
        requires
            old(self).wf(),
        ensures
            final(self).wf(),
            final(self).spec_capacity() == old(self).spec_capacity(),
            final(self)@.len() <= final(self).spec_capacity(),
            eq_is_exact::<K>() ==> ({
                let s = old(self)@;
                match r {
                    Some(v) => {
                        &&& has_key(s, *key)
                        &&& lookup(s, *key) matches Some(p) && *v == p.0
                            && final(self)@ == remove_key(s, *key).push(
                            (*key, p.0, bumped(p.1)))
                    },
                    None => {
                        &&& !has_key(s, *key)
                        &&& final(self)@ == s
                    },
                }
            }),
    {
        match self.find(key) {
            Some(i) => {
                proof {
                    if eq_is_exact::<K>() {
                        lemma_remove_at_index(self@, i as int);
                    }
                }
                let e = self.entries.remove(i);
                let f = if e.2 < usize::MAX {
                    e.2 + 1
                } else {
                    e.2
                };
                self.entries.push((e.0, e.1, f));
                let j = self.entries.len() - 1;
                Some(&self.entries[j].1)
            },
            None => None,
        }
    }

    /// Stores `value` under `key`.
    ///
    /// An existing key keeps its entry but takes the new value and a
    /// frequency one higher. A new key enters at frequency 1; if the cache
    /// was full, the least frequently used entry (ties to the longest
    /// resident of the minimal tier) is evicted first.
    pub fn put(&mut self, key: K, value: V)
        requires
            old(self).wf(),
        ensures
            final(self).wf(),
            final(self).spec_capacity() == old(self).spec_capacity(),
            final(self)@.len() <= final(self).spec_capacity(),
            eq_is_exact::<K>() ==> ({
                let s = old(self)@;
                if has_key(s, key) {
                    lookup(s, key) matches Some(p) && final(self)@ == remove_key(s, key).push(
                        (key, value, bumped(p.1)))
                } else if s.len() < old(self).spec_capacity() {
                    final(self)@ == s.push((key, value, 1usize))
                } else {
                    final(self)@ == s.remove(evict_index(s)).push((key, value, 1usize))
                }
            }),
    {
        match self.find(&key) {
            Some(i) => {
                proof {
                    if eq_is_exact::<K>() {
                        lemma_remove_at_index(self@, i as int);
                    }
                }
                let e = self.entries.remove(i);
                let f = if e.2 < usize::MAX {
                    e.2 + 1
                } else {
                    e.2
                };
                self.entries.push((e.0, value, f));
            },
            None => {
                if self.entries.len() >= self.capacity {
                    let j = self.victim_index();
                    proof {
                        if eq_is_exact::<K>() {
                            lemma_remove_at_index(self@, j as int);
                        }
                    }
                    let _ = self.entries.remove(j);
                }
                self.entries.push((key, value, 1));
            },
        }
    }

    /// Removes the entry for `key`, returning its value if one was stored.
    ///
    /// Removal needs no frequency bookkeeping: the minimum frequency is
    /// determined afresh at each eviction, never cached between calls.
    pub fn remove(&mut self, key: &K) -> (r: Option<V>)
        requires
            old(self).wf(),
        ensures
            final(self).wf(),
            final(self).spec_capacity() == old(self).spec_capacity(),
            eq_is_exact::<K>() ==> ({
                let s = old(self)@;
                match r {
                    Some(v) => {
                        &&& has_key(s, *key)
                        &&& lookup(s, *key) matches Some(p) && v == p.0
                        &&& final(self)@ == remove_key(s, *key)
                    },
                    None => {
                        &&& !has_key(s, *key)
                        &&& final(self)@ == s
                    },
                }
            }),
    {
        match self.find(key) {
            Some(i) => {
                proof {
                    if eq_is_exact::<K>() {
                        lemma_remove_at_index(self@, i as int);
                    }
                }
                let e = self.entries.remove(i);
                Some(e.1)
            },
            None => None,
        }
    }

    /// Removes every entry.
    pub fn clear(&mut self)
        requires
            old(self).wf(),
        ensures
            final(self).wf(),
            final(self).spec_capacity() == old(self).spec_capacity(),
            final(self)@ == Seq::<(K, V, usize)>::empty(),
    {
        self.entries.clear();
    }
}

} // verus!
