//! A growable array with explicit capacity bookkeeping.

use vstd::prelude::*;
use crate::error::DsaError;
use vstd::pervasive::VecAdditionalExecFns;
use crate::keys::clone_is_exact;
use crate::keys::eq_is_exact;
use crate::traits::Container;
use crate::traits::Searchable;

verus! {

/// The capacity a `DynamicArray` starts with when none is given.
pub const DEFAULT_CAPACITY: usize = 8;

/// A growable array.
///
/// Keeps its own capacity figure: it doubles when the array fills and
/// halves (never below the default) when the array drops below a quarter
/// of it, mirroring the usual growth policy of a dynamic array.
pub struct DynamicArray<T> {
    data: Vec<T>,
    capacity: usize,
}

impl<T> View for DynamicArray<T> {
    type V = Seq<T>;

    closed spec fn view(&self) -> Seq<T> {
        self.data@
    }
}

impl<T> DynamicArray<T> {
    /// The current capacity figure.
    pub closed spec fn spec_capacity(&self) -> nat {
        self.capacity as nat
    }

    /// Well-formedness: the capacity is positive and never less than the
    /// length.
    pub open spec fn wf(&self) -> bool {
        &&& self.spec_capacity() >= 1
        &&& self@.len() <= self.spec_capacity()
    }

    /// Creates an empty array with the default capacity.
    pub fn new() -> (r: Self)
        ensures
            r.wf(),
            r@ == Seq::<T>::empty(),
    {
        Self::with_capacity(DEFAULT_CAPACITY)
    }

    /// Creates an empty array with at least the given capacity.
    pub fn with_capacity(capacity: usize) -> (r: Self)
        ensures
            r.wf(),
            r@ == Seq::<T>::empty(),
    {
        let cap = if capacity > 1 {
            capacity
        } else {
            1
        };
        DynamicArray { data: Vec::with_capacity(cap), capacity: cap }
    }

    /// Returns the current capacity figure.
    pub fn capacity(&self) -> (r: usize)
        ensures
            r == self.spec_capacity(),
    {
        self.capacity
    }

    /// Returns the number of elements stored.
    pub fn len(&self) -> (r: usize)
        ensures
            r == self@.len(),
    {
        self.data.len()
    }

    /// Returns `true` if the array holds no elements.
    pub fn is_empty(&self) -> (r: bool)
        ensures
            r == (self@.len() == 0),
    {
        self.data.len() == 0
    }

    /// Appends a value, doubling the capacity figure if the array is full.
    pub fn push(&mut self, value: T)
        requires
            old(self).wf(),
            old(self)@.len() < usize::MAX,
        ensures
            final(self).wf(),
            final(self)@ == old(self)@.push(value),
    {
        if self.data.len() >= self.capacity {
            self.capacity = if self.capacity <= usize::MAX / 2 {
                self.capacity * 2
            } else {
                usize::MAX
            };
        }
        self.data.push(value);
    }

    /// Removes and returns the last value, shrinking the capacity figure
    /// when the array falls below a quarter of it.
    pub fn pop(&mut self) -> (r: Option<T>)
        requires
            old(self).wf(),
        ensures
            final(self).wf(),
            old(self)@.len() == 0 ==> r is None && final(self)@ == old(self)@,
            old(self)@.len() > 0 ==> r == Some(old(self)@.last())
                && final(self)@ == old(self)@.drop_last(),
    {
        let value = self.data.pop();
        let len = self.data.len();
        if len > 0 && len < self.capacity / 4 {
            let halved = self.capacity / 2;
            self.capacity = if halved > DEFAULT_CAPACITY {
                halved
            } else {
                DEFAULT_CAPACITY
            };
        }
        value
    }

    /// Returns the element at `index`, if in bounds.
    pub fn get(&self, index: usize) -> (r: Option<&T>)
        ensures
            index < self@.len() ==> (r matches Some(v) && *v == self@[index as int]),
            index >= self@.len() ==> r is None,
    {
        if index < self.data.len() {
            Some(&self.data[index])
        } else {
            None
        }
    }

    /// Replaces the element at `index`; out of bounds is an error.
    pub fn set(&mut self, index: usize, value: T) -> (r: Result<(), DsaError>)
        requires
            old(self).wf(),
        ensures
            final(self).wf(),
            index < old(self)@.len() ==> r is Ok
                && final(self)@ == old(self)@.update(index as int, value),
            index >= old(self)@.len() ==> final(self)@ == old(self)@
                && r == Err::<(), DsaError>(DsaError::IndexOutOfBounds {
                index,
                size: old(self)@.len() as usize,
            }),
    {
        if index >= self.data.len() {
            Err(DsaError::IndexOutOfBounds { index, size: self.data.len() })
        } else {
            self.data.set(index, value);
            Ok(())
        }
    }

    /// Inserts a value at `index`, shifting later elements; an index past
    /// the end is an error.
    pub fn insert(&mut self, index: usize, value: T) -> (r: Result<(), DsaError>)
        requires
            old(self).wf(),
            old(self)@.len() < usize::MAX,
        ensures
            final(self).wf(),
            index <= old(self)@.len() ==> r is Ok
                && final(self)@ == old(self)@.insert(index as int, value),
            index > old(self)@.len() ==> final(self)@ == old(self)@
                && r == Err::<(), DsaError>(DsaError::IndexOutOfBounds {
                index,
                size: old(self)@.len() as usize,
            }),
    {
        if index > self.data.len() {
            Err(DsaError::IndexOutOfBounds { index, size: self.data.len() })
        } else {
            if self.data.len() >= self.capacity {
                self.capacity = if self.capacity <= usize::MAX / 2 {
                    self.capacity * 2
                } else {
                    usize::MAX
                };
            }
            self.data.insert(index, value);
            Ok(())
        }
    }

    /// Removes and returns the element at `index`; out of bounds is an
    /// error.
    pub fn remove(&mut self, index: usize) -> (r: Result<T, DsaError>)
        requires
            old(self).wf(),
        ensures
            final(self).wf(),
            index < old(self)@.len() ==> r == Ok::<T, DsaError>(old(self)@[index as int])
                && final(self)@ == old(self)@.remove(index as int),
            index >= old(self)@.len() ==> final(self)@ == old(self)@
                && r == Err::<T, DsaError>(DsaError::IndexOutOfBounds {
                index,
                size: old(self)@.len() as usize,
            }),
    {
        if index >= self.data.len() {
            Err(DsaError::IndexOutOfBounds { index, size: self.data.len() })
        } else {
            Ok(self.data.remove(index))
        }
    }

    /// Removes every element; the capacity figure stays.
    pub fn clear(&mut self)
        requires
            old(self).wf(),
        ensures
            final(self).wf(),
            final(self).spec_capacity() == old(self).spec_capacity(),
            final(self)@ == Seq::<T>::empty(),
    {
        self.data.clear();
    }

    /// Reverses the elements in place.
    pub fn reverse(&mut self)
        requires
            old(self).wf(),
        ensures
            final(self).wf(),
            final(self)@ == old(self)@.reverse(),
    {
        let ghost s = self.data@;
        proof {
            assert(s.take(s.len() as int) =~= s);
            assert(s.skip(s.len() as int).reverse() =~= Seq::<T>::empty());
        }
        let mut out: Vec<T> = Vec::new();
        while self.data.len() > 0
            invariant
                self.spec_capacity() == old(self).spec_capacity(),
                s.len() <= self.spec_capacity(),
                self.data@.len() <= s.len(),
                self.data@ == s.take(self.data@.len() as int),
                out@ == s.skip(self.data@.len() as int).reverse(),
            decreases self.data@.len(),
        {
            let x = self.data.pop().unwrap();
            out.push(x);
            proof {
                assert(self.data@ =~= s.take(self.data@.len() as int));
                assert(out@ =~= s.skip(self.data@.len() as int).reverse());
            }
        }
        self.data = out;
        proof {
            assert(s.skip(0) =~= s);
            assert(self.data@.len() == s.len());
        }
    }

    /// Returns the first element, if any.
    pub fn first(&self) -> (r: Option<&T>)
        ensures
            self@.len() == 0 ==> r is None,
            self@.len() > 0 ==> (r matches Some(v) && *v == self@[0]),
    {
        if self.data.len() > 0 {
            Some(&self.data[0])
        } else {
            None
        }
    }

    /// Returns the last element, if any.
    pub fn last(&self) -> (r: Option<&T>)
        ensures
            self@.len() == 0 ==> r is None,
            self@.len() > 0 ==> (r matches Some(v) && *v == self@.last()),
    {
        if self.data.len() > 0 {
            Some(&self.data[self.data.len() - 1])
        } else {
            None
        }
    }

    /// A snapshot of the elements in order.
    pub fn iter(&self) -> (r: Vec<T>) where T: Clone
        ensures
            r@.len() == self@.len(),
            clone_is_exact::<T>() ==> r@ == self@,
    {
        let mut out: Vec<T> = Vec::new();
        let n = self.data.len();
        for i in 0..n
            invariant
                n == self@.len(),
                out@.len() == i,
                clone_is_exact::<T>() ==> out@ == self@.take(i as int),
        {
            let x = self.data[i].clone();
            proof {
                if clone_is_exact::<T>() {
                    assert(vstd::pervasive::cloned::<T>(self@[i as int], x));
                    assert(self@.take(i + 1) =~= self@.take(i as int).push(self@[i as int]));
                }
            }
            out.push(x);
        }
        proof {
            assert(self@.take(n as int) =~= self@);
        }
        out
    }

    /// Unwraps the array into the underlying vector.
    pub fn into_vec(self) -> (r: Vec<T>)
        ensures
            r@ == self@,
    {
        self.data
    }

    /// A borrowed view of the elements in order.
    pub fn as_slice(&self) -> (r: &[T])
        ensures
            r@ == self@,
    {
        self.data.as_slice()
    }
}

impl<T: PartialEq> DynamicArray<T> {
    /// The position of the first occurrence of the value.
    pub fn find(&self, value: &T) -> (r: Option<usize>)
        ensures
            r matches Some(i) ==> i < self@.len(),
            eq_is_exact::<T>() ==> match r {
                Some(i) => i < self@.len() && self@[i as int] == *value
                    && forall|j: int| 0 <= j < i ==> self@[j] != *value,
                None => forall|j: int| 0 <= j < self@.len() ==> self@[j] != *value,
            },
    {
        let n = self.data.len();
        for i in 0..n
            invariant
                n == self@.len(),
                eq_is_exact::<T>() ==> forall|j: int| 0 <= j < i ==> self@[j] != *value,
        {
            if self.data[i] == *value {
                return Some(i);
            }
        }
        None
    }

    /// Removes the first occurrence of the value; reports whether one was
    /// found.
    pub fn remove_value(&mut self, value: &T) -> (r: bool)
        requires
            old(self).wf(),
        ensures
            final(self).wf(),
            eq_is_exact::<T>() ==> ({
                if exists|j: int| 0 <= j < old(self)@.len() && old(self)@[j] == *value {
                    r && exists|i: int|
                        {
                            &&& 0 <= i < old(self)@.len()
                            &&& old(self)@[i] == *value
                            &&& #[trigger] final(self)@ == old(self)@.remove(i)
                            &&& forall|j: int| 0 <= j < i ==> old(self)@[j] != *value
                        }
                } else {
                    !r && final(self)@ == old(self)@
                }
            }),
    {
        match self.find(value) {
            Some(index) => {
                let _ = self.data.remove(index);
                true
            },
            None => false,
        }
    }
}

impl<T> Container for DynamicArray<T> {
    fn len(&self) -> usize {
        self.data.len()
    }

    fn is_empty(&self) -> bool {
        self.data.len() == 0
    }
}

impl<T: PartialEq> Searchable<T> for DynamicArray<T> {
    fn search(&self, value: &T) -> Option<usize> {
        DynamicArray::find(self, value)
    }

    fn contains(&self, value: &T) -> bool {
        DynamicArray::find(self, value).is_some()
    }
}

} // verus!
