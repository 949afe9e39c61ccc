//! A stack: last in, first out.

use vstd::prelude::*;
use crate::keys::clone_is_exact;
use crate::keys::eq_is_exact;
use crate::traits::Container;
use crate::traits::Searchable;

verus! {

/// A LIFO stack backed by a growable array; the top is the last element.
pub struct Stack<T> {
    data: Vec<T>,
}

impl<T> View for Stack<T> {
    type V = Seq<T>;

    closed spec fn view(&self) -> Seq<T> {
        self.data@
    }
}

impl<T> Stack<T> {
    /// Creates an empty stack.
    pub fn new() -> (r: Self)
        ensures
            r@ == Seq::<T>::empty(),
    {
        Stack { data: Vec::new() }
    }

    /// Creates an empty stack with room reserved for `capacity` elements.
    pub fn with_capacity(capacity: usize) -> (r: Self)
        ensures
            r@ == Seq::<T>::empty(),
    {
        Stack { data: Vec::with_capacity(capacity) }
    }

    /// Returns the number of elements on the stack.
    pub fn len(&self) -> (r: usize)
        ensures
            r == self@.len(),
    {
        self.data.len()
    }

    /// Returns `true` if the stack holds no elements.
    pub fn is_empty(&self) -> (r: bool)
        ensures
            r == (self@.len() == 0),
    {
        self.data.len() == 0
    }

    /// Pushes a value on top of the stack.
    pub fn push(&mut self, value: T)
        ensures
            final(self)@ == old(self)@.push(value),
    {
        self.data.push(value);
    }

    /// Removes and returns the top value, if any.
    pub fn pop(&mut self) -> (r: Option<T>)
        ensures
            old(self)@.len() == 0 ==> r is None && final(self)@ == old(self)@,
            old(self)@.len() > 0 ==> r == Some(old(self)@.last())
                && final(self)@ == old(self)@.drop_last(),
    {
        self.data.pop()
    }

    /// Returns the top value without removing it.
    pub fn peek(&self) -> (r: Option<&T>)
        ensures
            self@.len() == 0 ==> r is None,
            self@.len() > 0 ==> (r matches Some(v) && *v == self@.last()),
    {
        if self.data.len() > 0 {
            Some(&self.data[self.data.len() - 1])
        } else {
            None
        }
    }

    /// Removes every element.
    pub fn clear(&mut self)
        ensures
            final(self)@ == Seq::<T>::empty(),
    {
        self.data.clear();
    }

    /// A snapshot of the stack, bottom first.
    pub fn to_vec(&self) -> (r: Vec<T>) where T: Clone
        ensures
            r@.len() == self@.len(),
            clone_is_exact::<T>() ==> r@ == self@,
    {
        let mut out: Vec<T> = Vec::new();
        let n = self.data.len();
        for i in 0..n
            invariant
                n == self@.len(),
                out@.len() == i,
                clone_is_exact::<T>() ==> out@ == self@.take(i as int),
        {
            let x = self.data[i].clone();
            proof {
                if clone_is_exact::<T>() {
                    assert(vstd::pervasive::cloned::<T>(self@[i as int], x));
                    assert(self@.take(i + 1) =~= self@.take(i as int).push(self@[i as int]));
                }
            }
            out.push(x);
        }
        proof {
            assert(self@.take(n as int) =~= self@);
        }
        out
    }

    /// A snapshot of the stack, bottom first.
    pub fn iter(&self) -> (r: Vec<T>) where T: Clone
        ensures
            r@.len() == self@.len(),
            clone_is_exact::<T>() ==> r@ == self@,
    {
        self.to_vec()
    }

    /// A snapshot of the stack, top first.
    pub fn iter_from_top(&self) -> (r: Vec<T>) where T: Clone
        ensures
            r@.len() == self@.len(),
            clone_is_exact::<T>() ==> r@ == self@.reverse(),
    {
        let mut out: Vec<T> = Vec::new();
        let n = self.data.len();
        let mut i = n;
        while i > 0
            invariant
                n == self@.len(),
                i <= n,
                out@.len() == n - i,
                clone_is_exact::<T>() ==> out@ == self@.skip(i as int).reverse(),
            decreases i,
        {
            i = i - 1;
            let x = self.data[i].clone();
            proof {
                if clone_is_exact::<T>() {
                    assert(vstd::pervasive::cloned::<T>(self@[i as int], x));
                    assert(self@.skip(i as int).reverse()
                        =~= self@.skip(i + 1).reverse().push(self@[i as int]));
                }
            }
            out.push(x);
        }
        proof {
            assert(self@.skip(0) =~= self@);
        }
        out
    }

    /// Wraps an existing vector; its last element becomes the top.
    pub fn from_vec(vec: Vec<T>) -> (r: Self)
        ensures
            r@ == vec@,
    {
        Stack { data: vec }
    }
}

impl<T: PartialEq> Stack<T> {
    /// The 1-based distance of the value from the top of the stack.
    pub fn search(&self, value: &T) -> (r: Option<usize>)
        ensures
            eq_is_exact::<T>() ==> match r {
                Some(d) => 1 <= d <= self@.len() && self@[self@.len() - d] == *value
                    && forall|j: int|
                        self@.len() - d < j < self@.len() ==> self@[j] != *value,
                None => forall|j: int| 0 <= j < self@.len() ==> self@[j] != *value,
            },
    {
        let n = self.data.len();
        let mut i = n;
        while i > 0
            invariant
                n == self@.len(),
                i <= n,
                eq_is_exact::<T>() ==> forall|j: int| i <= j < n ==> self@[j] != *value,
            decreases i,
        {
            i = i - 1;
            if self.data[i] == *value {
                return Some(n - i);
            }
        }
        None
    }

    /// Returns `true` if the value occurs anywhere in the stack.
    pub fn contains(&self, value: &T) -> (r: bool)
        ensures
            eq_is_exact::<T>() ==> r == exists|j: int| 0 <= j < self@.len()
                && self@[j] == *value,
    {
        self.search(value).is_some()
    }
}

impl<T> Container for Stack<T> {
    fn len(&self) -> usize {
        self.data.len()
    }

    fn is_empty(&self) -> bool {
        self.data.len() == 0
    }
}

impl<T: PartialEq> Searchable<T> for Stack<T> {
    fn search(&self, value: &T) -> Option<usize> {
        Stack::search(self, value)
    }

    fn contains(&self, value: &T) -> bool {
        Stack::contains(self, value)
    }
}

} // verus!
