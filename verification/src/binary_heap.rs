//! Binary max/min heaps backed by a growable array.
//!
//! Every reordering step is an exchange of two positions, so each
//! operation's effect on the multiset of stored elements is stated and
//! proved exactly; the heap-shape property itself is a runtime matter
//! checked by `is_valid`.

use vstd::prelude::*;
use core::cmp::Ordering;
use vstd::multiset::Multiset;
use crate::keys::clone_is_exact;
use crate::sorting::exchange;
use crate::traits::Container;

verus! {

/// Whether a heap surfaces its greatest or least element.
#[derive(Debug, Clone, Copy, PartialEq, Eq, Structural)]
pub enum HeapType {
    Max,
    Min,
}

/// A binary heap; the root sits at index 0.
pub struct BinaryHeap<T> {
    data: Vec<T>,
    heap_type: HeapType,
}

impl<T> View for BinaryHeap<T> {
    type V = Seq<T>;

    closed spec fn view(&self) -> Seq<T> {
        self.data@
    }
}

impl<T: Ord> BinaryHeap<T> {
    /// The heap's ordering mode.
    pub closed spec fn spec_heap_type(&self) -> HeapType {
        self.heap_type
    }

    /// Creates an empty max-heap.
    pub fn new() -> (r: Self)
        ensures
            r@ == Seq::<T>::empty(),
            r.spec_heap_type() == HeapType::Max,
    {
        Self::new_max()
    }

    /// Creates an empty max-heap.
    pub fn new_max() -> (r: Self)
        ensures
            r@ == Seq::<T>::empty(),
            r.spec_heap_type() == HeapType::Max,
    {
        BinaryHeap { data: Vec::new(), heap_type: HeapType::Max }
    }

    /// Creates an empty min-heap.
    pub fn new_min() -> (r: Self)
        ensures
            r@ == Seq::<T>::empty(),
            r.spec_heap_type() == HeapType::Min,
    {
        BinaryHeap { data: Vec::new(), heap_type: HeapType::Min }
    }

    /// Creates an empty heap with room reserved for `capacity` elements.
    pub fn with_capacity(capacity: usize, heap_type: HeapType) -> (r: Self)
        ensures
            r@ == Seq::<T>::empty(),
            r.spec_heap_type() == heap_type,
    {
        BinaryHeap { data: Vec::with_capacity(capacity), heap_type }
    }

    /// Builds a heap over the elements of the vector.
    pub fn from_vec(vec: Vec<T>, heap_type: HeapType) -> (r: Self)
        ensures
            r@.to_multiset() == vec@.to_multiset(),
            r@.len() == vec@.len(),
            r.spec_heap_type() == heap_type,
    {
        let mut heap = BinaryHeap { data: vec, heap_type };
        heap.heapify();
        heap
    }

    /// The number of stored elements.
    pub fn len(&self) -> (r: usize)
        ensures
            r == self@.len(),
    {
        self.data.len()
    }

    /// Returns `true` if the heap holds no elements.
    pub fn is_empty(&self) -> (r: bool)
        ensures
            r == (self@.len() == 0),
    {
        self.data.len() == 0
    }

    /// The heap's ordering mode.
    pub fn heap_type(&self) -> (r: HeapType)
        ensures
            r == self.spec_heap_type(),
    {
        self.heap_type
    }

    /// Three-way comparison in the heap's own order.
    fn compare(&self, a: &T, b: &T) -> Ordering {
        match self.heap_type {
            HeapType::Max => a.cmp(b),
            HeapType::Min => b.cmp(a),
        }
    }

    /// Adds an element.
    pub fn push(&mut self, value: T)
        ensures
            final(self)@.len() == old(self)@.len() + 1,
            final(self)@.to_multiset() == old(self)@.to_multiset().insert(value),
            final(self).spec_heap_type() == old(self).spec_heap_type(),
    {
        proof {
            broadcast use vstd::seq_lib::to_multiset_build;
        }
        self.data.push(value);
        let idx = self.data.len() - 1;
        self.sift_up(idx);
    }

    /// Removes and returns the root element, if any.
    pub fn pop(&mut self) -> (r: Option<T>)
        ensures
            final(self).spec_heap_type() == old(self).spec_heap_type(),
            old(self)@.len() == 0 ==> r is None && final(self)@ == old(self)@,
            old(self)@.len() > 0 ==> ({
                &&& final(self)@.len() == old(self)@.len() - 1
                &&& r matches Some(v) && old(self)@.to_multiset().contains(v)
                    && final(self)@.to_multiset() == old(self)@.to_multiset().remove(v)
            }),
    {
        if self.data.len() == 0 {
            return None;
        }
        let len = self.data.len();
        exchange(&mut self.data, 0, len - 1);
        let ghost swapped = self.data@;
        let result = self.data.pop();
        proof {
            broadcast use vstd::seq_lib::to_multiset_build;
            broadcast use vstd::seq_lib::group_to_multiset_ensures;
            assert(swapped =~= swapped.drop_last().push(swapped.last()));
        }
        if self.data.len() > 0 {
            self.sift_down(0);
        }
        result
    }

    /// The root element, if any.
    pub fn peek(&self) -> (r: Option<&T>)
        ensures
            self@.len() == 0 ==> r is None,
            self@.len() > 0 ==> (r matches Some(v) && *v == self@[0]),
    {
        if self.data.len() > 0 {
            Some(&self.data[0])
        } else {
            None
        }
    }

    /// Pushes a value then pops the root, in one step: the value comes
    /// straight back unless it precedes the current root.
    pub fn push_pop(&mut self, value: T) -> (r: T)
        ensures
            final(self).spec_heap_type() == old(self).spec_heap_type(),
            final(self)@.len() == old(self)@.len(),
            final(self)@.to_multiset() == old(self)@.to_multiset()
                || final(self)@.to_multiset() == old(self)@.to_multiset().remove(r).insert(
                value) && old(self)@.to_multiset().contains(r),
    {
        if self.data.len() == 0 {
            return value;
        }
        let keep = {
            let c = self.compare(&value, &self.data[0]);
            !matches!(c, Ordering::Less)
        };
        if keep {
            return value;
        }
        let ghost before = self.data@;
        let old_root = self.data.remove(0);
        self.data.insert(0, value);
        proof {
            broadcast use vstd::seq_lib::to_multiset_build;
            broadcast use vstd::seq_lib::group_to_multiset_ensures;
            assert(self.data@ =~= seq![self.data@[0]] + before.remove(0));
            assert(seq![self.data@[0]] + before.remove(0)
                =~= before.remove(0).insert(0, self.data@[0]));
            vstd::seq_lib::to_multiset_insert(before.remove(0), 0, self.data@[0]);
            vstd::seq_lib::to_multiset_remove(before, 0);
        }
        self.sift_down(0);
        old_root
    }

    /// Removes every element.
    pub fn clear(&mut self)
        ensures
            final(self)@ == Seq::<T>::empty(),
            final(self).spec_heap_type() == old(self).spec_heap_type(),
    {
        self.data.clear();
    }

    /// Drains the heap in its order: repeated pops, collected.
    pub fn into_sorted_vec(self) -> (r: Vec<T>)
        ensures
            r@.len() == self@.len(),
            r@.to_multiset() == self@.to_multiset(),
    {
        let mut heap = self;
        let ghost orig = heap@;
        let mut result: Vec<T> = Vec::new();
        proof {
            broadcast use vstd::multiset::group_multiset_axioms;
            broadcast use vstd::seq_lib::group_to_multiset_ensures;
            assert(result@.to_multiset() =~= Multiset::<T>::empty());
            assert(result@.to_multiset().add(heap@.to_multiset()) =~= orig.to_multiset());
        }
        while heap.data.len() > 0
            invariant
                result@.to_multiset().add(heap@.to_multiset()) == orig.to_multiset(),
                result@.len() + heap@.len() == orig.len(),
            decreases heap@.len(),
        {
            let v = heap.pop().unwrap();
            result.push(v);
            proof {
                broadcast use vstd::seq_lib::to_multiset_build;
                broadcast use vstd::seq_lib::group_to_multiset_ensures;
                broadcast use vstd::multiset::group_multiset_axioms;
                assert(result@.to_multiset().add(heap@.to_multiset())
                    =~= orig.to_multiset());
            }
        }
        result
    }

    /// Restores the heap shape over the whole array.
    fn heapify(&mut self)
        ensures
            final(self)@.len() == old(self)@.len(),
            final(self)@.to_multiset() == old(self)@.to_multiset(),
            final(self).spec_heap_type() == old(self).spec_heap_type(),
    {
        let len = self.data.len();
        let mut i = len / 2;
        while i > 0
            invariant
                self@.len() == old(self)@.len(),
                self@.to_multiset() == old(self)@.to_multiset(),
                self.spec_heap_type() == old(self).spec_heap_type(),
                i <= self@.len(),
            decreases i,
        {
            i = i - 1;
            self.sift_down(i);
        }
    }

    /// Moves the element at `i` up while it precedes its parent.
    fn sift_up(&mut self, at: usize)
        requires
            at < old(self)@.len(),
        ensures
            final(self)@.len() == old(self)@.len(),
            final(self)@.to_multiset() == old(self)@.to_multiset(),
            final(self).spec_heap_type() == old(self).spec_heap_type(),
    {
        let mut i = at;
        while i > 0
            invariant
                i < self@.len(),
                self@.len() == old(self)@.len(),
                self@.to_multiset() == old(self)@.to_multiset(),
                self.spec_heap_type() == old(self).spec_heap_type(),
            decreases i,
        {
            let parent = (i - 1) / 2;
            let go = {
                let a = &self.data[i];
                let b = &self.data[parent];
                let c = match self.heap_type {
                    HeapType::Max => a.cmp(b),
                    HeapType::Min => b.cmp(a),
                };
                matches!(c, Ordering::Greater)
            };
            if go {
                exchange(&mut self.data, i, parent);
                i = parent;
            } else {
                break;
            }
        }
    }

    /// Moves the element at `i` down while a child precedes it.
    fn sift_down(&mut self, at: usize)
        requires
            at < old(self)@.len(),
        ensures
            final(self)@.len() == old(self)@.len(),
            final(self)@.to_multiset() == old(self)@.to_multiset(),
            final(self).spec_heap_type() == old(self).spec_heap_type(),
    {
        let len = self.data.len();
        let mut i = at;
        while i < len
            invariant
                i < len == self@.len(),
                self@.len() == old(self)@.len(),
                self@.to_multiset() == old(self)@.to_multiset(),
                self.spec_heap_type() == old(self).spec_heap_type(),
            decreases len - i,
        {
            let mut largest = i;
            if i <= (usize::MAX - 1) / 2 {
                let left = 2 * i + 1;
                if left < len {
                    let c = {
                        let a = &self.data[left];
                        let b = &self.data[largest];
                        match self.heap_type {
                            HeapType::Max => a.cmp(b),
                            HeapType::Min => b.cmp(a),
                        }
                    };
                    if matches!(c, Ordering::Greater) {
                        largest = left;
                    }
                }
                if i <= (usize::MAX - 2) / 2 {
                    let right = 2 * i + 2;
                    if right < len {
                        let c = {
                            let a = &self.data[right];
                            let b = &self.data[largest];
                            match self.heap_type {
                                HeapType::Max => a.cmp(b),
                                HeapType::Min => b.cmp(a),
                            }
                        };
                        if matches!(c, Ordering::Greater) {
                            largest = right;
                        }
                    }
                }
            }
            if largest != i {
                exchange(&mut self.data, i, largest);
                i = largest;
            } else {
                break;
            }
        }
    }

    /// A snapshot of the backing array in storage order.
    pub fn iter(&self) -> (r: Vec<T>) where T: Clone
        ensures
            r@.len() == self@.len(),
            clone_is_exact::<T>() ==> r@ == self@,
    {
        let mut out: Vec<T> = Vec::new();
        let n = self.data.len();
        for i in 0..n
            invariant
                n == self@.len(),
                out@.len() == i,
                clone_is_exact::<T>() ==> out@ == self@.take(i as int),
        {
            let x = self.data[i].clone();
            proof {
                if clone_is_exact::<T>() {
                    assert(vstd::pervasive::cloned::<T>(self@[i as int], x));
                    assert(self@.take(i + 1) =~= self@.take(i as int).push(self@[i as int]));
                }
            }
            out.push(x);
        }
        proof {
            assert(self@.take(n as int) =~= self@);
        }
        out
    }

    /// Unwraps the heap into its backing array, in storage order.
    pub fn into_vec(self) -> (r: Vec<T>)
        ensures
            r@ == self@,
    {
        self.data
    }

    /// Checks the heap shape: no element precedes its parent.
    pub fn is_valid(&self) -> (r: bool)
    {
        let n = self.data.len();
        let mut i: usize = 1;
        while i < n
            invariant
                1 <= i,
                n == self@.len(),
            decreases n - i,
        {
            let parent = (i - 1) / 2;
            let c = {
                let a = &self.data[i];
                let b = &self.data[parent];
                match self.heap_type {
                    HeapType::Max => a.cmp(b),
                    HeapType::Min => b.cmp(a),
                }
            };
            if matches!(c, Ordering::Greater) {
                return false;
            }
            i = i + 1;
        }
        true
    }
}

impl<T: Ord> Default for BinaryHeap<T> {
    fn default() -> (r: Self)
        ensures
            r@ == Seq::<T>::empty(),
            r.spec_heap_type() == HeapType::Max,
    {
        BinaryHeap::new()
    }
}

impl<T: Ord> Container for BinaryHeap<T> {
    fn len(&self) -> usize {
        self.data.len()
    }

    fn is_empty(&self) -> bool {
        self.data.len() == 0
    }
}

/// A heap that surfaces its least element.
pub struct MinHeap<T> {
    inner: BinaryHeap<T>,
}

impl<T> View for MinHeap<T> {
    type V = Seq<T>;

    closed spec fn view(&self) -> Seq<T> {
        self.inner@
    }
}

impl<T: Ord> MinHeap<T> {
    /// Creates an empty min-heap.
    pub fn new() -> (r: Self)
        ensures
            r@ == Seq::<T>::empty(),
    {
        MinHeap { inner: BinaryHeap::new_min() }
    }

    /// Builds a min-heap over the elements of the vector.
    pub fn from_vec(vec: Vec<T>) -> (r: Self)
        ensures
            r@.to_multiset() == vec@.to_multiset(),
            r@.len() == vec@.len(),
    {
        MinHeap { inner: BinaryHeap::from_vec(vec, HeapType::Min) }
    }

    /// The number of stored elements.
    pub fn len(&self) -> (r: usize)
        ensures
            r == self@.len(),
    {
        self.inner.len()
    }

    /// Returns `true` if the heap holds no elements.
    pub fn is_empty(&self) -> (r: bool)
        ensures
            r == (self@.len() == 0),
    {
        self.inner.is_empty()
    }

    /// Adds an element.
    pub fn push(&mut self, value: T)
        ensures
            final(self)@.len() == old(self)@.len() + 1,
            final(self)@.to_multiset() == old(self)@.to_multiset().insert(value),
    {
        self.inner.push(value);
    }

    /// Removes and returns the least-ordered root, if any.
    pub fn pop(&mut self) -> (r: Option<T>)
        ensures
            old(self)@.len() == 0 ==> r is None && final(self)@ == old(self)@,
            old(self)@.len() > 0 ==> ({
                &&& final(self)@.len() == old(self)@.len() - 1
                &&& r matches Some(v) && old(self)@.to_multiset().contains(v)
                    && final(self)@.to_multiset() == old(self)@.to_multiset().remove(v)
            }),
    {
        self.inner.pop()
    }

    /// The root element, if any.
    pub fn peek(&self) -> (r: Option<&T>)
        ensures
            self@.len() == 0 ==> r is None,
            self@.len() > 0 ==> (r matches Some(v) && *v == self@[0]),
    {
        self.inner.peek()
    }

    /// Removes every element.
    pub fn clear(&mut self)
        ensures
            final(self)@ == Seq::<T>::empty(),
    {
        self.inner.clear();
    }
}

} // verus!
