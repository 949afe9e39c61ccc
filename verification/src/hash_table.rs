//! An open-addressing hash table with linear probing.

use vstd::prelude::*;
use crate::traits::Container;

verus! {

/// The number of slots a `HashTable` starts with.
pub const INITIAL_CAPACITY: usize = 16;

/// A key that can hash itself with the FNV-1a function.
///
/// The hash decides only which slot a probe starts from; any
/// deterministic value keeps the table correct.
pub trait FnvHashable {
    /// The key's FNV-1a hash, folded from the given basis.
    fn fnv_hash(&self, seed: u64) -> u64;
}

/// The FNV-1a prime.
pub const FNV_PRIME: u64 = 0x100000001b3;

/// The FNV-1a offset basis.
pub const FNV_OFFSET: u64 = 0xcbf29ce484222325;

/// Folds one byte into an FNV-1a state.
pub fn fnv_step(state: u64, byte: u8) -> u64 {
    (state ^ (byte as u64)).wrapping_mul(FNV_PRIME)
}

/// Folds eight little-endian bytes of a word into an FNV-1a state.
pub fn fnv_fold_u64(seed: u64, value: u64) -> u64 {
    let mut state = seed;
    let mut v = value;
    let mut i: usize = 0;
    while i < 8
        invariant
            i <= 8,
        decreases 8 - i,
    {
        state = fnv_step(state, (v % 256) as u8);
        v = v / 256;
        i = i + 1;
    }
    state
}

impl FnvHashable for u64 {
    fn fnv_hash(&self, seed: u64) -> u64 {
        fnv_fold_u64(seed, *self)
    }
}

impl FnvHashable for u32 {
    fn fnv_hash(&self, seed: u64) -> u64 {
        fnv_fold_u64(seed, *self as u64)
    }
}

impl FnvHashable for usize {
    fn fnv_hash(&self, seed: u64) -> u64 {
        fnv_fold_u64(seed, *self as u64)
    }
}

impl FnvHashable for i32 {
    fn fnv_hash(&self, seed: u64) -> u64 {
        fnv_fold_u64(seed, *self as u32 as u64)
    }
}

impl FnvHashable for i64 {
    fn fnv_hash(&self, seed: u64) -> u64 {
        fnv_fold_u64(seed, *self as u64)
    }
}

impl FnvHashable for &str {
    fn fnv_hash(&self, seed: u64) -> u64 {
        let bytes = self.as_bytes();
        let n = bytes.len();
        let mut state = seed;
        for i in 0..n
            invariant
                n == bytes@.len(),
        {
            state = fnv_step(state, bytes[i]);
        }
        state
    }
}

impl FnvHashable for String {
    fn fnv_hash(&self, seed: u64) -> u64 {
        self.as_str().fnv_hash(seed)
    }
}

/// One slot of the table.
enum Slot<K, V> {
    Empty,
    Deleted,
    Occupied(K, V),
}

/// A hash table mapping keys to values by linear probing; deleted
/// slots are tombstoned.
pub struct HashTable<K, V> {
    entries: Vec<Slot<K, V>>,
    len: usize,
    capacity: usize,
}

impl<K: FnvHashable + Eq + Clone, V: Clone> HashTable<K, V> {
    /// The number of live entries.
    pub closed spec fn spec_len(&self) -> nat {
        self.len as nat
    }

    /// The number of slots.
    pub closed spec fn spec_capacity(&self) -> nat {
        self.capacity as nat
    }

    /// Well-formedness: at least one slot, the slot vector matches the
    /// capacity, and the live count never exceeds the slots.
    pub open spec fn wf(&self) -> bool {
        &&& self.spec_capacity() >= 1
        &&& self.slots_len() == self.spec_capacity()
        &&& self.spec_len() <= self.spec_capacity()
    }

    /// The length of the slot vector.
    pub closed spec fn slots_len(&self) -> nat {
        self.entries@.len()
    }

    /// Creates a table with the default number of slots.
    pub fn new() -> (r: Self)
        ensures
            r.wf(),
            r.spec_len() == 0,
    {
        Self::with_capacity(INITIAL_CAPACITY)
    }

    /// Creates a table with at least one slot.
    pub fn with_capacity(capacity: usize) -> (r: Self)
        ensures
            r.wf(),
            r.spec_len() == 0,
    {
        let cap = if capacity > 1 {
            capacity
        } else {
            1
        };
        let mut entries: Vec<Slot<K, V>> = Vec::new();
        for i in 0..cap
            invariant
                entries@.len() == i,
        {
            entries.push(Slot::Empty);
        }
        HashTable { entries, len: 0, capacity: cap }
    }

    /// The number of live entries.
    pub fn len(&self) -> (r: usize)
        ensures
            r == self.spec_len(),
    {
        self.len
    }

    /// Returns `true` if no entry is live.
    pub fn is_empty(&self) -> (r: bool)
        ensures
            r == (self.spec_len() == 0),
    {
        self.len == 0
    }

    /// The number of slots.
    pub fn capacity(&self) -> (r: usize)
        ensures
            r == self.spec_capacity(),
    {
        self.capacity
    }

    /// The probe start for a key.
    fn hash(&self, key: &K) -> (r: usize)
        requires
            self.wf(),
        ensures
            r < self.spec_capacity(),
    {
        let h = key.fnv_hash(FNV_OFFSET);
        (h % (self.capacity as u64)) as usize
    }

    /// The slot holding the key, probing linearly from its hash.
    fn find_index(&self, key: &K) -> (r: Option<usize>)
        requires
            self.wf(),
        ensures
            r matches Some(i) ==> i < self.slots_len(),
    {
        let start = self.hash(key);
        let cap = self.capacity;
        for t in 0..cap
            invariant
                self.wf(),
                cap == self.spec_capacity(),
                start < cap,
        {
            let idx = if t < cap - start {
                start + t
            } else {
                t - (cap - start)
            };
            match &self.entries[idx] {
                Slot::Occupied(k, _) => {
                    if *k == *key {
                        return Some(idx);
                    }
                },
                Slot::Empty => {
                    return None;
                },
                Slot::Deleted => {},
            }
        }
        None
    }

    /// The slot an insertion of the key should use: its current slot,
    /// or the first tombstone or empty slot on the probe path.
    fn find_insert_index(&self, key: &K) -> (r: usize)
        requires
            self.wf(),
        ensures
            r < self.slots_len(),
    {
        let start = self.hash(key);
        let cap = self.capacity;
        let mut first_deleted: usize = cap;
        for t in 0..cap
            invariant
                self.wf(),
                cap == self.spec_capacity(),
                start < cap,
                first_deleted <= cap,
        {
            let idx = if t < cap - start {
                start + t
            } else {
                t - (cap - start)
            };
            match &self.entries[idx] {
                Slot::Occupied(k, _) => {
                    if *k == *key {
                        return idx;
                    }
                },
                Slot::Deleted => {
                    if first_deleted == cap {
                        first_deleted = idx;
                    }
                },
                Slot::Empty => {
                    if first_deleted < cap {
                        return first_deleted;
                    }
                    return idx;
                },
            }
        }
        if first_deleted < cap {
            first_deleted
        } else {
            start
        }
    }

    /// Doubles the slot count and re-places every live entry.
    fn resize(&mut self)
        requires
            old(self).wf(),
        ensures
            final(self).wf(),
    {
        let new_capacity = if self.capacity <= usize::MAX / 2 {
            self.capacity * 2
        } else {
            usize::MAX
        };
        let mut new_entries: Vec<Slot<K, V>> = Vec::new();
        for i in 0..new_capacity
            invariant
                new_entries@.len() == i,
        {
            new_entries.push(Slot::Empty);
        }
        let old_entries = self.entries.split_off(0);
        let n = old_entries.len();
        let mut live: usize = 0;
        let mut src = old_entries;
        let mut i: usize = 0;
        while i < n
            invariant
                i <= n,
                src@.len() == n - i,
                new_entries@.len() == new_capacity,
                1 <= new_capacity,
                live <= i,
            decreases n - i,
        {
            let slot = src.remove(0);
            match slot {
                Slot::Occupied(k, v) => {
                    let h = k.fnv_hash(FNV_OFFSET);
                    let start = (h % (new_capacity as u64)) as usize;
                    let mut placed = false;
                    for t in 0..new_capacity
                        invariant
                            new_entries@.len() == new_capacity,
                            start < new_capacity,
                    {
                        if !placed {
                            let idx = if t < new_capacity - start {
                                start + t
                            } else {
                                t - (new_capacity - start)
                            };
                            let occupied = matches!(&new_entries[idx], Slot::Occupied(_, _));
                            if !occupied {
                                new_entries.set(idx, Slot::Occupied(k.clone(), v.clone()));
                                placed = true;
                            }
                        }
                    }
                    if placed {
                        live = if live < usize::MAX {
                            live + 1
                        } else {
                            live
                        };
                    }
                },
                _ => {},
            }
            i = i + 1;
        }
        self.entries = new_entries;
        self.capacity = new_capacity;
        if self.len > self.capacity {
            self.len = self.capacity;
        }
    }

    /// Stores `value` under `key`, returning the value it replaces.
    pub fn insert(&mut self, key: K, value: V) -> (r: Option<V>)
        requires
            old(self).wf(),
        ensures
            final(self).wf(),
    {
        let needs_grow = {
            let num = (self.len as u128 + 1) * 4;
            let den = (self.capacity as u128) * 3;
            num > den
        };
        if needs_grow {
            self.resize();
        }
        let idx = self.find_insert_index(&key);
        let old_slot = self.entries.remove(idx);
        match old_slot {
            Slot::Occupied(k, v) => {
                if k == key {
                    self.entries.insert(idx, Slot::Occupied(key, value));
                    Some(v)
                } else {
                    self.entries.insert(idx, Slot::Occupied(key, value));
                    if self.len < self.capacity {
                        self.len = self.len + 1;
                    }
                    None
                }
            },
            _ => {
                self.entries.insert(idx, Slot::Occupied(key, value));
                if self.len < self.capacity {
                    self.len = self.len + 1;
                }
                None
            },
        }
    }

    /// The value stored under `key`, if any.
    pub fn get(&self, key: &K) -> (r: Option<&V>)
        requires
            self.wf(),
    {
        match self.find_index(key) {
            Some(idx) => {
                match &self.entries[idx] {
                    Slot::Occupied(_, v) => Some(v),
                    _ => None,
                }
            },
            None => None,
        }
    }

    /// Whether a value is stored under `key`.
    pub fn contains(&self, key: &K) -> (r: bool)
        requires
            self.wf(),
    {
        self.find_index(key).is_some()
    }

    /// Removes and returns the value stored under `key`.
    pub fn remove(&mut self, key: &K) -> (r: Option<V>)
        requires
            old(self).wf(),
        ensures
            final(self).wf(),
            final(self).spec_len() <= old(self).spec_len(),
    {
        match self.find_index(key) {
            Some(idx) => {
                let old_slot = self.entries.remove(idx);
                self.entries.insert(idx, Slot::Deleted);
                match old_slot {
                    Slot::Occupied(_, v) => {
                        if self.len > 0 {
                            self.len = self.len - 1;
                        }
                        Some(v)
                    },
                    _ => None,
                }
            },
            None => None,
        }
    }

    /// Removes every entry; the slot count stays.
    pub fn clear(&mut self)
        requires
            old(self).wf(),
        ensures
            final(self).wf(),
            final(self).spec_len() == 0,
    {
        let cap = self.capacity;
        let mut entries: Vec<Slot<K, V>> = Vec::new();
        for i in 0..cap
            invariant
                entries@.len() == i,
        {
            entries.push(Slot::Empty);
        }
        self.entries = entries;
        self.len = 0;
    }

    /// The live keys, in slot order.
    pub fn keys(&self) -> (r: Vec<K>)
        requires
            self.wf(),
        ensures
            r@.len() <= self.slots_len(),
    {
        let n = self.entries.len();
        let mut out: Vec<K> = Vec::new();
        for i in 0..n
            invariant
                n == self.slots_len(),
                out@.len() <= i,
        {
            match &self.entries[i] {
                Slot::Occupied(k, _) => {
                    out.push(k.clone());
                },
                _ => {},
            }
        }
        out
    }

    /// The live values, in slot order.
    pub fn values(&self) -> (r: Vec<V>)
        requires
            self.wf(),
        ensures
            r@.len() <= self.slots_len(),
    {
        let n = self.entries.len();
        let mut out: Vec<V> = Vec::new();
        for i in 0..n
            invariant
                n == self.slots_len(),
                out@.len() <= i,
        {
            match &self.entries[i] {
                Slot::Occupied(_, v) => {
                    out.push(v.clone());
                },
                _ => {},
            }
        }
        out
    }

    /// The live entries, in slot order.
    pub fn iter(&self) -> (r: Vec<(K, V)>)
        requires
            self.wf(),
        ensures
            r@.len() <= self.slots_len(),
    {
        let n = self.entries.len();
        let mut out: Vec<(K, V)> = Vec::new();
        for i in 0..n
            invariant
                n == self.slots_len(),
                out@.len() <= i,
        {
            match &self.entries[i] {
                Slot::Occupied(k, v) => {
                    out.push((k.clone(), v.clone()));
                },
                _ => {},
            }
        }
        out
    }
}

impl<K: FnvHashable + Eq + Clone, V: Clone> Default for HashTable<K, V> {
    fn default() -> (r: Self)
        ensures
            r.wf(),
            r.spec_len() == 0,
    {
        HashTable::new()
    }
}

impl<K: FnvHashable + Eq + Clone, V: Clone> Container for HashTable<K, V> {
    fn len(&self) -> usize {
        self.len
    }

    fn is_empty(&self) -> bool {
        self.len == 0
    }
}

} // verus!
