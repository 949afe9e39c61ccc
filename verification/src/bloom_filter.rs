//! A Bloom filter over FNV double hashing.

use vstd::prelude::*;
use vstd::pervasive::VecAdditionalExecFns;
use crate::hash_table::FnvHashable;
use crate::hash_table::FNV_OFFSET;

verus! {

/// The second seed used to derive an independent hash stream.
pub const FNV_SEED_ALT: u64 = 0x517cc1b727220a95;

/// A fixed-size Bloom filter: a set sketch that can say "possibly
/// present" or "certainly absent".
pub struct BloomFilter {
    bits: Vec<u64>,
    num_bits: usize,
    num_hashes: usize,
    count: usize,
}

impl BloomFilter {
    /// The number of bit positions.
    pub closed spec fn spec_num_bits(&self) -> nat {
        self.num_bits as nat
    }

    /// The number of hash probes per item.
    pub closed spec fn spec_num_hashes(&self) -> nat {
        self.num_hashes as nat
    }

    /// The number of insertions made.
    pub closed spec fn spec_count(&self) -> nat {
        self.count as nat
    }

    /// Well-formedness: at least 64 bits backed by exactly enough
    /// words, and between 1 and 16 probes.
    pub open spec fn wf(&self) -> bool {
        &&& self.spec_num_bits() >= 64
        &&& self.words_len() * 64 >= self.spec_num_bits()
        &&& 1 <= self.spec_num_hashes() <= 16
    }

    /// The number of backing words.
    pub closed spec fn words_len(&self) -> nat {
        self.bits@.len()
    }

    /// Creates a filter with at least 64 bit positions and between 1
    /// and 16 probes per item.
    pub fn with_size(num_bits: usize, num_hashes: usize) -> (r: Self)
        requires
            num_bits <= usize::MAX - 63,
        ensures
            r.wf(),
            r.spec_count() == 0,
    {
        let nb = if num_bits > 64 {
            num_bits
        } else {
            64
        };
        let nh = if num_hashes < 1 {
            1
        } else if num_hashes > 16 {
            16
        } else {
            num_hashes
        };
        let num_words = (nb + 63) / 64;
        let mut bits: Vec<u64> = Vec::new();
        for i in 0..num_words
            invariant
                bits@.len() == i,
        {
            bits.push(0);
        }
        BloomFilter { bits, num_bits: nb, num_hashes: nh, count: 0 }
    }

    /// The number of bit positions.
    pub fn num_bits(&self) -> (r: usize)
        ensures
            r == self.spec_num_bits(),
    {
        self.num_bits
    }

    /// The number of hash probes per item.
    pub fn num_hashes(&self) -> (r: usize)
        ensures
            r == self.spec_num_hashes(),
    {
        self.num_hashes
    }

    /// How many insertions have been made.
    pub fn count(&self) -> (r: usize)
        ensures
            r == self.spec_count(),
    {
        self.count
    }

    /// Returns `true` if nothing has been inserted.
    pub fn is_empty(&self) -> (r: bool)
        ensures
            r == (self.spec_count() == 0),
    {
        self.count == 0
    }

    /// The probe positions for an item.
    fn hash_indices<T: FnvHashable>(&self, item: &T) -> (r: Vec<usize>)
        requires
            self.wf(),
        ensures
            r@.len() == self.spec_num_hashes(),
            forall|i: int| 0 <= i < r@.len() ==> (#[trigger] r@[i]) < self.spec_num_bits(),
    {
        let h1 = item.fnv_hash(FNV_OFFSET);
        let h2 = item.fnv_hash(FNV_SEED_ALT);
        let mut out: Vec<usize> = Vec::new();
        let nh = self.num_hashes;
        for i in 0..nh
            invariant
                nh == self.spec_num_hashes(),
                self.wf(),
                out@.len() == i,
                forall|j: int| 0 <= j < i ==> (#[trigger] out@[j]) < self.spec_num_bits(),
        {
            let hash = h1.wrapping_add((i as u64).wrapping_mul(h2));
            let idx = (hash % (self.num_bits as u64)) as usize;
            out.push(idx);
        }
        out
    }

    /// Sets one bit position.
    fn set_bit(&mut self, index: usize)
        requires
            old(self).wf(),
            index < old(self).spec_num_bits(),
        ensures
            final(self).wf(),
            final(self).spec_num_bits() == old(self).spec_num_bits(),
            final(self).spec_num_hashes() == old(self).spec_num_hashes(),
            final(self).spec_count() == old(self).spec_count(),
    {
        let word_idx = index / 64;
        let bit_idx = (index % 64) as u64;
        let w = self.bits[word_idx];
        self.bits.set(word_idx, w | (1u64 << bit_idx));
    }

    /// Reads one bit position.
    fn get_bit(&self, index: usize) -> (r: bool)
        requires
            self.wf(),
            index < self.spec_num_bits(),
    {
        let word_idx = index / 64;
        let bit_idx = (index % 64) as u64;
        ((self.bits[word_idx] >> bit_idx) & 1) == 1
    }

    /// Records an item: sets its probe bits.
    pub fn insert<T: FnvHashable>(&mut self, item: &T)
        requires
            old(self).wf(),
        ensures
            final(self).wf(),
            final(self).spec_count() >= old(self).spec_count(),
    {
        let indices = self.hash_indices(item);
        let n = indices.len();
        for i in 0..n
            invariant
                n == indices@.len(),
                self.wf(),
                self.spec_num_bits() == old(self).spec_num_bits(),
                self.spec_count() == old(self).spec_count(),
                forall|j: int|
                    0 <= j < indices@.len() ==> (#[trigger] indices@[j])
                        < self.spec_num_bits(),
        {
            self.set_bit(indices[i]);
        }
        self.count = if self.count < usize::MAX {
            self.count + 1
        } else {
            self.count
        };
    }

    /// Whether the item may have been recorded: all its probe bits are
    /// set. A `false` answer is definite.
    pub fn may_contain<T: FnvHashable>(&self, item: &T) -> (r: bool)
        requires
            self.wf(),
    {
        let indices = self.hash_indices(item);
        let n = indices.len();
        for i in 0..n
            invariant
                n == indices@.len(),
                self.wf(),
                forall|j: int|
                    0 <= j < indices@.len() ==> (#[trigger] indices@[j])
                        < self.spec_num_bits(),
        {
            if !self.get_bit(indices[i]) {
                return false;
            }
        }
        true
    }

    /// Clears every bit and the insertion count.
    pub fn clear(&mut self)
        requires
            old(self).wf(),
        ensures
            final(self).wf(),
            final(self).spec_count() == 0,
    {
        let n = self.bits.len();
        for i in 0..n
            invariant
                n == self.words_len(),
                self.wf(),
                self.spec_num_bits() == old(self).spec_num_bits(),
                self.spec_num_hashes() == old(self).spec_num_hashes(),
        {
            self.bits.set(i, 0);
        }
        self.count = 0;
    }

    /// Absorbs another filter of identical shape by or-ing its bits;
    /// reports whether the shapes matched.
    pub fn merge(&mut self, other: &BloomFilter) -> (r: bool)
        requires
            old(self).wf(),
        ensures
            final(self).wf(),
    {
        if self.num_bits != other.num_bits || self.num_hashes != other.num_hashes
            || self.bits.len() != other.bits.len() {
            return false;
        }
        let n = self.bits.len();
        for i in 0..n
            invariant
                n == self.words_len(),
                n == other.words_len(),
                self.wf(),
                self.spec_num_bits() == old(self).spec_num_bits(),
                self.spec_num_hashes() == old(self).spec_num_hashes(),
        {
            let w = self.bits[i];
            self.bits.set(i, w | other.bits[i]);
        }
        self.count = if self.count <= usize::MAX - other.count {
            self.count + other.count
        } else {
            usize::MAX
        };
        true
    }
}

} // verus!
