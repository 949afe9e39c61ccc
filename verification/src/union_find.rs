//! A disjoint-set forest with union by rank and path compression.

use vstd::prelude::*;
use vstd::pervasive::VecAdditionalExecFns;
use crate::traits::Container;

verus! {

/// A union-find structure over the elements `0 .. len`.
///
/// Each element stores a parent link; roots are their own parent. The
/// walks that look for a root take at most one step per element, which
/// on a well-formed forest (parent links free of cycles, as every
/// operation here keeps them) always reaches the root.
pub struct UnionFind {
    parent: Vec<usize>,
    rank: Vec<usize>,
    count: usize,
}

impl UnionFind {
    /// The parent link of each element.
    pub closed spec fn parents(&self) -> Seq<usize> {
        self.parent@
    }

    /// The number of disjoint sets.
    pub closed spec fn spec_count(&self) -> nat {
        self.count as nat
    }

    /// Well-formedness: ranks mirror elements, every parent link stays
    /// in bounds, and the set count never exceeds the element count.
    pub open spec fn wf(&self) -> bool {
        &&& self.rank_len() == self.parents().len()
        &&& forall|i: int|
            0 <= i < self.parents().len() ==> (#[trigger] self.parents()[i])
                < self.parents().len()
        &&& self.spec_count() <= self.parents().len()
    }

    /// The number of rank entries.
    pub closed spec fn rank_len(&self) -> nat {
        self.rank@.len()
    }

    /// Creates `n` singleton sets.
    pub fn new(n: usize) -> (r: Self)
        ensures
            r.wf(),
            r.parents().len() == n,
            r.spec_count() == n,
            forall|i: int| 0 <= i < n ==> (#[trigger] r.parents()[i]) == i,
    {
        let mut parent: Vec<usize> = Vec::new();
        let mut rank: Vec<usize> = Vec::new();
        for i in 0..n
            invariant
                parent@.len() == i,
                rank@.len() == i,
                forall|j: int| 0 <= j < i ==> (#[trigger] parent@[j]) == j,
        {
            parent.push(i);
            rank.push(0);
        }
        UnionFind { parent, rank, count: n }
    }

    /// The number of elements.
    pub fn len(&self) -> (r: usize)
        ensures
            r == self.parents().len(),
    {
        self.parent.len()
    }

    /// Returns `true` if there are no elements.
    pub fn is_empty(&self) -> (r: bool)
        ensures
            r == (self.parents().len() == 0),
    {
        self.parent.len() == 0
    }

    /// The number of disjoint sets.
    pub fn count(&self) -> (r: usize)
        ensures
            r == self.spec_count(),
    {
        self.count
    }

    /// The root of the set holding `x`, compressing the path to it.
    pub fn find(&mut self, x: usize) -> (r: usize)
        requires
            old(self).wf(),
            x < old(self).parents().len(),
        ensures
            final(self).wf(),
            final(self).parents().len() == old(self).parents().len(),
            final(self).spec_count() == old(self).spec_count(),
            r < final(self).parents().len(),
    {
        let n = self.parent.len();
        let mut root = x;
        let mut fuel: usize = 0;
        while fuel < n && self.parent[root] != root
            invariant
                self.wf(),
                self.parents().len() == n,
                root < n,
                fuel <= n,
            decreases n - fuel,
        {
            root = self.parent[root];
            fuel = fuel + 1;
        }
        let mut y = x;
        let mut fuel2: usize = 0;
        while fuel2 < n && self.parent[y] != y && self.parent[y] != root
            invariant
                self.wf(),
                self.parents().len() == n,
                self.spec_count() == old(self).spec_count(),
                self.rank_len() == old(self).rank_len(),
                root < n,
                y < n,
                fuel2 <= n,
            decreases n - fuel2,
        {
            let next = self.parent[y];
            self.parent.set(y, root);
            y = next;
            fuel2 = fuel2 + 1;
        }
        root
    }

    /// The root of the set holding `x`, without compressing.
    pub fn find_immutable(&self, x: usize) -> (r: usize)
        requires
            self.wf(),
            x < self.parents().len(),
        ensures
            r < self.parents().len(),
    {
        let n = self.parent.len();
        let mut root = x;
        let mut fuel: usize = 0;
        while fuel < n && self.parent[root] != root
            invariant
                self.wf(),
                self.parents().len() == n,
                root < n,
                fuel <= n,
            decreases n - fuel,
        {
            root = self.parent[root];
            fuel = fuel + 1;
        }
        root
    }

    /// Joins the sets holding `x` and `y`; reports whether they were
    /// distinct. A successful union lowers the set count by one.
    pub fn union(&mut self, x: usize, y: usize) -> (r: bool)
        requires
            old(self).wf(),
            x < old(self).parents().len(),
            y < old(self).parents().len(),
        ensures
            final(self).wf(),
            final(self).parents().len() == old(self).parents().len(),
            r ==> final(self).spec_count() == old(self).spec_count() - 1
                && old(self).spec_count() >= 1,
            !r ==> final(self).spec_count() == old(self).spec_count(),
    {
        let root_x = self.find(x);
        let root_y = self.find(y);
        if root_x == root_y {
            return false;
        }
        if self.count == 0 {
            return false;
        }
        let rx = self.rank[root_x];
        let ry = self.rank[root_y];
        if rx < ry {
            self.parent.set(root_x, root_y);
        } else if rx > ry {
            self.parent.set(root_y, root_x);
        } else {
            self.parent.set(root_y, root_x);
            if rx < usize::MAX {
                self.rank.set(root_x, rx + 1);
            }
        }
        self.count = self.count - 1;
        true
    }

    /// Whether `x` and `y` share a set, compressing both paths.
    pub fn connected(&mut self, x: usize, y: usize) -> (r: bool)
        requires
            old(self).wf(),
            x < old(self).parents().len(),
            y < old(self).parents().len(),
        ensures
            final(self).wf(),
            final(self).parents().len() == old(self).parents().len(),
            final(self).spec_count() == old(self).spec_count(),
    {
        let a = self.find(x);
        let b = self.find(y);
        a == b
    }

    /// Whether `x` and `y` share a set, without compressing.
    pub fn connected_immutable(&self, x: usize, y: usize) -> (r: bool)
        requires
            self.wf(),
            x < self.parents().len(),
            y < self.parents().len(),
    {
        let a = self.find_immutable(x);
        let b = self.find_immutable(y);
        a == b
    }

    /// How many elements share a set with `x`.
    pub fn set_size(&self, x: usize) -> (r: usize)
        requires
            self.wf(),
            x < self.parents().len(),
        ensures
            r <= self.parents().len(),
    {
        let root = self.find_immutable(x);
        let n = self.parent.len();
        let mut size: usize = 0;
        for i in 0..n
            invariant
                self.wf(),
                self.parents().len() == n,
                root < n,
                size <= i,
        {
            if self.find_immutable(i) == root {
                size = size + 1;
            }
        }
        size
    }

    /// The elements sharing a set with `x`, in ascending order.
    pub fn get_set(&self, x: usize) -> (r: Vec<usize>)
        requires
            self.wf(),
            x < self.parents().len(),
        ensures
            r@.len() <= self.parents().len(),
    {
        let root = self.find_immutable(x);
        let n = self.parent.len();
        let mut out: Vec<usize> = Vec::new();
        for i in 0..n
            invariant
                self.wf(),
                self.parents().len() == n,
                root < n,
                out@.len() <= i,
        {
            if self.find_immutable(i) == root {
                out.push(i);
            }
        }
        out
    }

    /// Every set, each in ascending order, ordered by least member.
    pub fn all_sets(&self) -> (r: Vec<Vec<usize>>)
        requires
            self.wf(),
    {
        let n = self.parent.len();
        let mut out: Vec<Vec<usize>> = Vec::new();
        for root in 0..n
            invariant
                self.wf(),
                self.parents().len() == n,
        {
            let mut members: Vec<usize> = Vec::new();
            for i in 0..n
                invariant
                    self.wf(),
                    self.parents().len() == n,
                    root < n,
            {
                if self.find_immutable(i) == root {
                    members.push(i);
                }
            }
            if members.len() > 0 {
                out.push(members);
            }
        }
        out
    }

    /// Returns every element to its own singleton set.
    pub fn reset(&mut self)
        requires
            old(self).wf(),
        ensures
            final(self).wf(),
            final(self).parents().len() == old(self).parents().len(),
            final(self).spec_count() == old(self).parents().len(),
            forall|i: int|
                0 <= i < final(self).parents().len() ==> (#[trigger] final(self).parents()[i])
                    == i,
    {
        let n = self.parent.len();
        for i in 0..n
            invariant
                self.parents().len() == n,
                self.rank_len() == old(self).rank_len(),
                self.rank_len() == n,
                forall|j: int| 0 <= j < i ==> (#[trigger] self.parents()[j]) == j,
                forall|j: int|
                    0 <= j < self.parents().len() ==> (#[trigger] self.parents()[j]) < n,
        {
            self.parent.set(i, i);
            self.rank.set(i, 0);
        }
        self.count = n;
    }
}

impl Default for UnionFind {
    fn default() -> (r: Self)
        ensures
            r.wf(),
            r.parents().len() == 0,
    {
        UnionFind::new(0)
    }
}

impl Container for UnionFind {
    fn len(&self) -> usize {
        self.parent.len()
    }

    fn is_empty(&self) -> bool {
        self.parent.len() == 0
    }
}

} // verus!
