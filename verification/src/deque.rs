//! A double-ended queue.

use vstd::prelude::*;
use crate::keys::clone_is_exact;
use crate::keys::eq_is_exact;
use crate::traits::Container;
use crate::traits::Searchable;

verus! {

/// A deque; elements can enter and leave at either end.
#[derive(Debug, Clone, PartialEq)]
pub struct Deque<T> {
    data: Vec<T>,
}

impl<T> View for Deque<T> {
    type V = Seq<T>;

    closed spec fn view(&self) -> Seq<T> {
        self.data@
    }
}

impl<T> Deque<T> {
    /// Creates an empty deque.
    pub fn new() -> (r: Self)
        ensures
            r@ == Seq::<T>::empty(),
    {
        Deque { data: Vec::new() }
    }

    /// Creates an empty deque with room reserved for `capacity` elements.
    pub fn with_capacity(capacity: usize) -> (r: Self)
        ensures
            r@ == Seq::<T>::empty(),
    {
        Deque { data: Vec::with_capacity(capacity) }
    }

    /// Returns the number of elements in the deque.
    pub fn len(&self) -> (r: usize)
        ensures
            r == self@.len(),
    {
        self.data.len()
    }

    /// Returns `true` if the deque holds no elements.
    pub fn is_empty(&self) -> (r: bool)
        ensures
            r == (self@.len() == 0),
    {
        self.data.len() == 0
    }

    /// Adds a value at the front.
    pub fn push_front(&mut self, value: T)
        ensures
            final(self)@ == seq![value] + old(self)@,
    {
        self.data.insert(0, value);
        proof {
            assert(self.data@ =~= seq![self.data@[0]] + old(self)@);
        }
    }

    /// Adds a value at the back.
    pub fn push_back(&mut self, value: T)
        ensures
            final(self)@ == old(self)@.push(value),
    {
        self.data.push(value);
    }

    /// Removes and returns the front value, if any.
    pub fn pop_front(&mut self) -> (r: Option<T>)
        ensures
            old(self)@.len() == 0 ==> r is None && final(self)@ == old(self)@,
            old(self)@.len() > 0 ==> r == Some(old(self)@[0])
                && final(self)@ == old(self)@.drop_first(),
    {
        if self.data.len() > 0 {
            let x = self.data.remove(0);
            proof {
                assert(self.data@ =~= old(self)@.drop_first());
            }
            Some(x)
        } else {
            None
        }
    }

    /// Removes and returns the back value, if any.
    pub fn pop_back(&mut self) -> (r: Option<T>)
        ensures
            old(self)@.len() == 0 ==> r is None && final(self)@ == old(self)@,
            old(self)@.len() > 0 ==> r == Some(old(self)@.last())
                && final(self)@ == old(self)@.drop_last(),
    {
        self.data.pop()
    }

    /// Returns the front value without removing it.
    pub fn front(&self) -> (r: Option<&T>)
        ensures
            self@.len() == 0 ==> r is None,
            self@.len() > 0 ==> (r matches Some(v) && *v == self@[0]),
    {
        if self.data.len() > 0 {
            Some(&self.data[0])
        } else {
            None
        }
    }

    /// Returns the back value without removing it.
    pub fn back(&self) -> (r: Option<&T>)
        ensures
            self@.len() == 0 ==> r is None,
            self@.len() > 0 ==> (r matches Some(v) && *v == self@.last()),
    {
        if self.data.len() > 0 {
            Some(&self.data[self.data.len() - 1])
        } else {
            None
        }
    }

    /// Returns the element at `index` from the front, if in bounds.
    pub fn get(&self, index: usize) -> (r: Option<&T>)
        ensures
            index < self@.len() ==> (r matches Some(v) && *v == self@[index as int]),
            index >= self@.len() ==> r is None,
    {
        if index < self.data.len() {
            Some(&self.data[index])
        } else {
            None
        }
    }

    /// Removes every element.
    pub fn clear(&mut self)
        ensures
            final(self)@ == Seq::<T>::empty(),
    {
        self.data.clear();
    }

    /// A snapshot of the deque, front first.
    pub fn to_vec(&self) -> (r: Vec<T>) where T: Clone
        ensures
            r@.len() == self@.len(),
            clone_is_exact::<T>() ==> r@ == self@,
    {
        let mut out: Vec<T> = Vec::new();
        let n = self.data.len();
        for i in 0..n
            invariant
                n == self@.len(),
                out@.len() == i,
                clone_is_exact::<T>() ==> out@ == self@.take(i as int),
        {
            let x = self.data[i].clone();
            proof {
                if clone_is_exact::<T>() {
                    assert(vstd::pervasive::cloned::<T>(self@[i as int], x));
                    assert(self@.take(i + 1) =~= self@.take(i as int).push(self@[i as int]));
                }
            }
            out.push(x);
        }
        proof {
            assert(self@.take(n as int) =~= self@);
        }
        out
    }

    /// A snapshot of the deque, front first.
    pub fn iter(&self) -> (r: Vec<T>) where T: Clone
        ensures
            r@.len() == self@.len(),
            clone_is_exact::<T>() ==> r@ == self@,
    {
        self.to_vec()
    }

    /// Wraps an existing vector; its first element becomes the front.
    pub fn from_vec(vec: Vec<T>) -> (r: Self)
        ensures
            r@ == vec@,
    {
        Deque { data: vec }
    }

    /// Rotates the deque `n` places to the left: the front `n % len`
    /// elements move to the back in order.
    pub fn rotate_left(&mut self, n: usize)
        ensures
            old(self)@.len() == 0 ==> final(self)@ == old(self)@,
            old(self)@.len() > 0 ==> ({
                let k = (n as int) % (old(self)@.len() as int);
                final(self)@ == old(self)@.skip(k) + old(self)@.take(k)
            }),
    {
        if self.data.len() > 0 {
            let k = n % self.data.len();
            let ghost s = self.data@;
            for t in 0..k
                invariant
                    k < s.len(),
                    self.data@.len() == s.len(),
                    self.data@ == s.skip(t as int) + s.take(t as int),
            {
                let x = self.data.remove(0);
                self.data.push(x);
                proof {
                    assert(self.data@ =~= s.skip(t + 1) + s.take(t + 1));
                }
            }
            proof {
                assert(s.skip(k as int) + s.take(k as int) == self.data@);
            }
        }
    }

    /// Rotates the deque `n` places to the right: the back `n % len`
    /// elements move to the front in order.
    pub fn rotate_right(&mut self, n: usize)
        ensures
            old(self)@.len() == 0 ==> final(self)@ == old(self)@,
            old(self)@.len() > 0 ==> ({
                let len = old(self)@.len() as int;
                let k = (n as int) % len;
                final(self)@ == old(self)@.skip(len - k) + old(self)@.take(len - k)
            }),
    {
        if self.data.len() > 0 {
            let k = n % self.data.len();
            let ghost s = self.data@;
            for t in 0..k
                invariant
                    k < s.len(),
                    self.data@.len() == s.len(),
                    self.data@ == s.skip(s.len() - t) + s.take(s.len() - t),
            {
                let x = self.data.pop().unwrap();
                self.data.insert(0, x);
                proof {
                    assert(self.data@ =~= s.skip(s.len() - (t + 1)) + s.take(s.len() - (t + 1)));
                }
            }
        }
    }

    /// Exchanges the elements at positions `i` and `j`.
    pub fn swap(&mut self, i: usize, j: usize)
        requires
            i < old(self)@.len(),
            j < old(self)@.len(),
        ensures
            final(self)@ == old(self)@.update(i as int, old(self)@[j as int]).update(
                j as int, old(self)@[i as int]),
    {
        let ghost s = self.data@;
        if i != j {
            let (a, b) = if i < j {
                (i, j)
            } else {
                (j, i)
            };
            let x = self.data.remove(b);
            let y = self.data.remove(a);
            self.data.insert(a, x);
            self.data.insert(b, y);
            proof {
                assert(self.data@ =~= s.update(i as int, s[j as int]).update(
                    j as int, s[i as int]));
            }
        } else {
            proof {
                assert(self.data@ =~= s.update(i as int, s[j as int]).update(
                    j as int, s[i as int]));
            }
        }
    }
}

impl<T: PartialEq> Deque<T> {
    /// The position of the first occurrence of the value, front being 0.
    pub fn search(&self, value: &T) -> (r: Option<usize>)
        ensures
            eq_is_exact::<T>() ==> match r {
                Some(i) => i < self@.len() && self@[i as int] == *value
                    && forall|j: int| 0 <= j < i ==> self@[j] != *value,
                None => forall|j: int| 0 <= j < self@.len() ==> self@[j] != *value,
            },
    {
        let n = self.data.len();
        for i in 0..n
            invariant
                n == self@.len(),
                eq_is_exact::<T>() ==> forall|j: int| 0 <= j < i ==> self@[j] != *value,
        {
            if self.data[i] == *value {
                return Some(i);
            }
        }
        None
    }

    /// Returns `true` if the value occurs anywhere in the deque.
    pub fn contains(&self, value: &T) -> (r: bool)
        ensures
            eq_is_exact::<T>() ==> r == exists|j: int| 0 <= j < self@.len()
                && self@[j] == *value,
    {
        self.search(value).is_some()
    }
}

impl<T> Default for Deque<T> {
    fn default() -> (r: Self)
        ensures
            r@ == Seq::<T>::empty(),
    {
        Deque::new()
    }
}

impl<T> Container for Deque<T> {
    fn len(&self) -> usize {
        self.data.len()
    }

    fn is_empty(&self) -> bool {
        self.data.len() == 0
    }
}

impl<T: PartialEq> Searchable<T> for Deque<T> {
    fn search(&self, value: &T) -> Option<usize> {
        Deque::search(self, value)
    }

    fn contains(&self, value: &T) -> bool {
        Deque::contains(self, value)
    }
}

} // verus!
