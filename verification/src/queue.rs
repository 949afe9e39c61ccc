//! A queue: first in, first out.

use vstd::prelude::*;
use crate::keys::clone_is_exact;
use crate::keys::eq_is_exact;
use crate::traits::Container;
use crate::traits::Searchable;

verus! {

/// A FIFO queue; the front is the first element of the sequence.
pub struct Queue<T> {
    data: Vec<T>,
}

impl<T> View for Queue<T> {
    type V = Seq<T>;

    closed spec fn view(&self) -> Seq<T> {
        self.data@
    }
}

impl<T> Queue<T> {
    /// Creates an empty queue.
    pub fn new() -> (r: Self)
        ensures
            r@ == Seq::<T>::empty(),
    {
        Queue { data: Vec::new() }
    }

    /// Creates an empty queue with room reserved for `capacity` elements.
    pub fn with_capacity(capacity: usize) -> (r: Self)
        ensures
            r@ == Seq::<T>::empty(),
    {
        Queue { data: Vec::with_capacity(capacity) }
    }

    /// Returns the number of elements in the queue.
    pub fn len(&self) -> (r: usize)
        ensures
            r == self@.len(),
    {
        self.data.len()
    }

    /// Returns `true` if the queue holds no elements.
    pub fn is_empty(&self) -> (r: bool)
        ensures
            r == (self@.len() == 0),
    {
        self.data.len() == 0
    }

    /// Adds a value at the back of the queue.
    pub fn enqueue(&mut self, value: T)
        ensures
            final(self)@ == old(self)@.push(value),
    {
        self.data.push(value);
    }

    /// Removes and returns the front value, if any.
    pub fn dequeue(&mut self) -> (r: Option<T>)
        ensures
            old(self)@.len() == 0 ==> r is None && final(self)@ == old(self)@,
            old(self)@.len() > 0 ==> r == Some(old(self)@[0])
                && final(self)@ == old(self)@.drop_first(),
    {
        if self.data.len() > 0 {
            let x = self.data.remove(0);
            proof {
                assert(self.data@ =~= old(self)@.drop_first());
            }
            Some(x)
        } else {
            None
        }
    }

    /// Returns the front value without removing it.
    pub fn peek(&self) -> (r: Option<&T>)
        ensures
            self@.len() == 0 ==> r is None,
            self@.len() > 0 ==> (r matches Some(v) && *v == self@[0]),
    {
        if self.data.len() > 0 {
            Some(&self.data[0])
        } else {
            None
        }
    }

    /// Returns the back value without removing it.
    pub fn back(&self) -> (r: Option<&T>)
        ensures
            self@.len() == 0 ==> r is None,
            self@.len() > 0 ==> (r matches Some(v) && *v == self@.last()),
    {
        if self.data.len() > 0 {
            Some(&self.data[self.data.len() - 1])
        } else {
            None
        }
    }

    /// Removes every element.
    pub fn clear(&mut self)
        ensures
            final(self)@ == Seq::<T>::empty(),
    {
        self.data.clear();
    }

    /// A snapshot of the queue, front first.
    pub fn to_vec(&self) -> (r: Vec<T>) where T: Clone
        ensures
            r@.len() == self@.len(),
            clone_is_exact::<T>() ==> r@ == self@,
    {
        let mut out: Vec<T> = Vec::new();
        let n = self.data.len();
        for i in 0..n
            invariant
                n == self@.len(),
                out@.len() == i,
                clone_is_exact::<T>() ==> out@ == self@.take(i as int),
        {
            let x = self.data[i].clone();
            proof {
                if clone_is_exact::<T>() {
                    assert(vstd::pervasive::cloned::<T>(self@[i as int], x));
                    assert(self@.take(i + 1) =~= self@.take(i as int).push(self@[i as int]));
                }
            }
            out.push(x);
        }
        proof {
            assert(self@.take(n as int) =~= self@);
        }
        out
    }

    /// A snapshot of the queue, front first.
    pub fn iter(&self) -> (r: Vec<T>) where T: Clone
        ensures
            r@.len() == self@.len(),
            clone_is_exact::<T>() ==> r@ == self@,
    {
        self.to_vec()
    }

    /// Wraps an existing vector; its first element becomes the front.
    pub fn from_vec(vec: Vec<T>) -> (r: Self)
        ensures
            r@ == vec@,
    {
        Queue { data: vec }
    }
}

impl<T: PartialEq> Queue<T> {
    /// The position of the first occurrence of the value, front being 0.
    pub fn search(&self, value: &T) -> (r: Option<usize>)
        ensures
            eq_is_exact::<T>() ==> match r {
                Some(i) => i < self@.len() && self@[i as int] == *value
                    && forall|j: int| 0 <= j < i ==> self@[j] != *value,
                None => forall|j: int| 0 <= j < self@.len() ==> self@[j] != *value,
            },
    {
        let n = self.data.len();
        for i in 0..n
            invariant
                n == self@.len(),
                eq_is_exact::<T>() ==> forall|j: int| 0 <= j < i ==> self@[j] != *value,
        {
            if self.data[i] == *value {
                return Some(i);
            }
        }
        None
    }

    /// Returns `true` if the value occurs anywhere in the queue.
    pub fn contains(&self, value: &T) -> (r: bool)
        ensures
            eq_is_exact::<T>() ==> r == exists|j: int| 0 <= j < self@.len()
                && self@[j] == *value,
    {
        self.search(value).is_some()
    }
}

impl<T> Container for Queue<T> {
    fn len(&self) -> usize {
        self.data.len()
    }

    fn is_empty(&self) -> bool {
        self.data.len() == 0
    }
}

impl<T: PartialEq> Searchable<T> for Queue<T> {
    fn search(&self, value: &T) -> Option<usize> {
        Queue::search(self, value)
    }

    fn contains(&self, value: &T) -> bool {
        Queue::contains(self, value)
    }
}

} // verus!
