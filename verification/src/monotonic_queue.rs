//! A monotonic queue over indexed values, and sliding-window extremes.

use vstd::prelude::*;

verus! {

/// The direction in which stored values are kept monotonic.
#[derive(Debug, Clone, Copy, PartialEq, Eq, Structural)]
pub enum MonotonicOrder {
    Decreasing,
    Increasing,
}

/// A queue of `(value, index)` pairs kept monotonic in the value, so
/// the front is always the window extreme.
pub struct MonotonicQueue<T> {
    data: Vec<(T, usize)>,
    order: MonotonicOrder,
}

impl<T> View for MonotonicQueue<T> {
    type V = Seq<(T, usize)>;

    closed spec fn view(&self) -> Seq<(T, usize)> {
        self.data@
    }
}

impl<T: PartialOrd> MonotonicQueue<T> {
    /// The queue's monotonic direction.
    pub closed spec fn spec_order(&self) -> MonotonicOrder {
        self.order
    }

    /// Creates an empty queue with the given direction.
    pub fn new(order: MonotonicOrder) -> (r: Self)
        ensures
            r@ == Seq::<(T, usize)>::empty(),
            r.spec_order() == order,
    {
        MonotonicQueue { data: Vec::new(), order }
    }

    /// A queue whose front tracks the window maximum.
    pub fn new_max() -> (r: Self)
        ensures
            r@ == Seq::<(T, usize)>::empty(),
            r.spec_order() == MonotonicOrder::Decreasing,
    {
        Self::new(MonotonicOrder::Decreasing)
    }

    /// A queue whose front tracks the window minimum.
    pub fn new_min() -> (r: Self)
        ensures
            r@ == Seq::<(T, usize)>::empty(),
            r.spec_order() == MonotonicOrder::Increasing,
    {
        Self::new(MonotonicOrder::Increasing)
    }

    /// The number of stored pairs.
    pub fn len(&self) -> (r: usize)
        ensures
            r == self@.len(),
    {
        self.data.len()
    }

    /// Returns `true` if the queue holds no pairs.
    pub fn is_empty(&self) -> (r: bool)
        ensures
            r == (self@.len() == 0),
    {
        self.data.len() == 0
    }

    /// Drops dominated values off the back, then appends the pair.
    pub fn push(&mut self, value: T, index: usize)
        ensures
            final(self)@.len() <= old(self)@.len() + 1,
            final(self)@.len() >= 1,
            final(self)@.last() == (value, index),
            final(self).spec_order() == old(self).spec_order(),
    {
        loop
            invariant
                self.spec_order() == old(self).spec_order(),
                self@.len() <= old(self)@.len(),
            decreases self@.len(),
        {
            if self.data.len() == 0 {
                break;
            }
            let drop_it = {
                let back = &self.data[self.data.len() - 1];
                match self.order {
                    MonotonicOrder::Decreasing => back.0 <= value,
                    MonotonicOrder::Increasing => back.0 >= value,
                }
            };
            if drop_it {
                let _ = self.data.pop();
            } else {
                break;
            }
        }
        self.data.push((value, index));
    }

    /// Drops pairs whose index has fallen out of the window.
    pub fn pop_front_if_before(&mut self, min_index: usize)
        ensures
            final(self)@.len() <= old(self)@.len(),
            final(self).spec_order() == old(self).spec_order(),
    {
        loop
            invariant
                self.spec_order() == old(self).spec_order(),
                self@.len() <= old(self)@.len(),
            decreases self@.len(),
        {
            if self.data.len() == 0 {
                break;
            }
            let stale = self.data[0].1 < min_index;
            if stale {
                let _ = self.data.remove(0);
            } else {
                break;
            }
        }
    }

    /// The front value, if any.
    pub fn front(&self) -> (r: Option<&T>)
        ensures
            self@.len() == 0 ==> r is None,
            self@.len() > 0 ==> (r matches Some(v) && *v == self@[0].0),
    {
        if self.data.len() > 0 {
            Some(&self.data[0].0)
        } else {
            None
        }
    }

    /// The front value and its index, if any.
    pub fn front_with_index(&self) -> (r: Option<(&T, usize)>)
        ensures
            self@.len() == 0 ==> r is None,
            self@.len() > 0 ==> (r matches Some(p) && *p.0 == self@[0].0 && p.1 == self@[0].1),
    {
        if self.data.len() > 0 {
            let e = &self.data[0];
            Some((&e.0, e.1))
        } else {
            None
        }
    }

    /// The back value, if any.
    pub fn back(&self) -> (r: Option<&T>)
        ensures
            self@.len() == 0 ==> r is None,
            self@.len() > 0 ==> (r matches Some(v) && *v == self@.last().0),
    {
        if self.data.len() > 0 {
            Some(&self.data[self.data.len() - 1].0)
        } else {
            None
        }
    }

    /// The back value and its index, if any.
    pub fn back_with_index(&self) -> (r: Option<(&T, usize)>)
        ensures
            self@.len() == 0 ==> r is None,
            self@.len() > 0 ==> (r matches Some(p) && *p.0 == self@.last().0
                && p.1 == self@.last().1),
    {
        if self.data.len() > 0 {
            let e = &self.data[self.data.len() - 1];
            Some((&e.0, e.1))
        } else {
            None
        }
    }

    /// Removes every pair.
    pub fn clear(&mut self)
        ensures
            final(self)@ == Seq::<(T, usize)>::empty(),
            final(self).spec_order() == old(self).spec_order(),
    {
        self.data.clear();
    }

    /// A snapshot of the stored values, front first.
    pub fn iter(&self) -> (r: Vec<T>) where T: Clone
        ensures
            r@.len() == self@.len(),
    {
        let mut out: Vec<T> = Vec::new();
        let n = self.data.len();
        for i in 0..n
            invariant
                n == self@.len(),
                out@.len() == i,
        {
            out.push(self.data[i].0.clone());
        }
        out
    }

    /// A snapshot of the stored pairs, front first.
    pub fn iter_with_index(&self) -> (r: Vec<(T, usize)>) where T: Clone
        ensures
            r@.len() == self@.len(),
    {
        let mut out: Vec<(T, usize)> = Vec::new();
        let n = self.data.len();
        for i in 0..n
            invariant
                n == self@.len(),
                out@.len() == i,
        {
            let e = &self.data[i];
            out.push((e.0.clone(), e.1));
        }
        out
    }
}

impl<T: PartialOrd + Clone> MonotonicQueue<T> {
    /// The window extreme (in this queue's direction) of every window
    /// of `k` consecutive elements.
    pub fn sliding_window_extremes(&self, arr: &Vec<T>, k: usize) -> (r: Vec<T>)
        ensures
            (arr@.len() == 0 || k == 0 || k > arr@.len()) ==> r@.len() == 0,
            (arr@.len() > 0 && 1 <= k <= arr@.len()) ==> r@.len() == arr@.len() - k + 1,
    {
        if arr.len() == 0 || k == 0 || k > arr.len() {
            return Vec::new();
        }
        let mut queue = MonotonicQueue::<T>::new(self.order);
        let mut result: Vec<T> = Vec::new();
        let n = arr.len();
        for i in 0..n
            invariant
                n == arr@.len(),
                1 <= k <= n,
                result@.len() == (if i >= k - 1 {
                    i - k + 1
                } else {
                    0int
                }),
        {
            queue.push(arr[i].clone(), i);
            if i >= k {
                queue.pop_front_if_before(i - k + 1);
            }
            if i >= k - 1 {
                match queue.front() {
                    Some(val) => {
                        result.push(val.clone());
                    },
                    None => {
                        result.push(arr[i].clone());
                    },
                }
            }
        }
        result
    }
}

/// The maximum of every window of `k` consecutive elements.
pub fn sliding_window_maximum<T: PartialOrd + Clone>(arr: &Vec<T>, k: usize) -> (r: Vec<T>)
    ensures
        (arr@.len() == 0 || k == 0 || k > arr@.len()) ==> r@.len() == 0,
        (arr@.len() > 0 && 1 <= k <= arr@.len()) ==> r@.len() == arr@.len() - k + 1,
{
    let queue = MonotonicQueue::<T>::new_max();
    queue.sliding_window_extremes(arr, k)
}

/// The minimum of every window of `k` consecutive elements.
pub fn sliding_window_minimum<T: PartialOrd + Clone>(arr: &Vec<T>, k: usize) -> (r: Vec<T>)
    ensures
        (arr@.len() == 0 || k == 0 || k > arr@.len()) ==> r@.len() == 0,
        (arr@.len() > 0 && 1 <= k <= arr@.len()) ==> r@.len() == arr@.len() - k + 1,
{
    let queue = MonotonicQueue::<T>::new_min();
    queue.sliding_window_extremes(arr, k)
}

} // verus!
