//! Segment trees for range queries: a generic point-update tree over
//! any merge function, and a lazy-propagation tree for range adds.

use vstd::prelude::*;
use vstd::pervasive::VecAdditionalExecFns;

verus! {

/// A segment tree over `n` cells: leaves sit at `n ..= 2n - 1`, inner
/// node `i` merges nodes `2i` and `2i + 1`.
#[verifier::reject_recursive_types(T)]
pub struct SegmentTree<T, F> where F: Fn(&T, &T) -> T {
    tree: Vec<T>,
    n: usize,
    merge: F,
    identity: T,
}

impl<T: Clone, F: Fn(&T, &T) -> T> SegmentTree<T, F> {
    /// The number of cells.
    pub closed spec fn spec_len(&self) -> nat {
        self.n as nat
    }

    /// Well-formedness: the backing array holds two nodes per cell (one
    /// slot when there are no cells).
    pub open spec fn wf(&self) -> bool {
        &&& self.tree_len() == (if self.spec_len() == 0 {
            1nat
        } else {
            2 * self.spec_len()
        })
        &&& self.spec_len() <= usize::MAX / 2
    }

    /// The backing array's length.
    pub closed spec fn tree_len(&self) -> nat {
        self.tree@.len()
    }

    /// The merge function accepts any two values.
    pub closed spec fn merge_callable(&self) -> bool {
        forall|a: &T, b: &T| #[trigger] call_requires(self.merge, (a, b))
    }

    /// Builds a tree over the given cells with the given merge function
    /// and its identity value.
    pub fn from_slice(arr: &Vec<T>, merge: F, identity: T) -> (r: Self)
        requires
            arr@.len() <= usize::MAX / 2,
            forall|a: &T, b: &T| #[trigger] call_requires(merge, (a, b)),
        ensures
            r.wf(),
            r.merge_callable(),
            r.spec_len() == arr@.len(),
    {
        let n = arr.len();
        if n == 0 {
            let mut tree: Vec<T> = Vec::new();
            tree.push(identity.clone());
            return SegmentTree { tree, n: 0, merge, identity };
        }
        let slots = 2 * n;
        let mut tree: Vec<T> = Vec::new();
        for i in 0..n
            invariant
                tree@.len() == i,
        {
            tree.push(identity.clone());
        }
        for i in 0..n
            invariant
                n == arr@.len(),
                tree@.len() == n + i,
        {
            tree.push(arr[i].clone());
        }
        let mut i = n;
        while i > 1
            invariant
                forall|a: &T, b: &T| #[trigger] call_requires(merge, (a, b)),
                1 <= i <= n,
                n <= usize::MAX / 2,
                tree@.len() == 2 * n,
            decreases i,
        {
            i = i - 1;
            let merged = (merge)(&tree[2 * i], &tree[2 * i + 1]);
            tree.set(i, merged);
        }
        SegmentTree { tree, n, merge, identity }
    }

    /// The number of cells.
    pub fn len(&self) -> (r: usize)
        ensures
            r == self.spec_len(),
    {
        self.n
    }

    /// Returns `true` if the tree has no cells.
    pub fn is_empty(&self) -> (r: bool)
        ensures
            r == (self.spec_len() == 0),
    {
        self.n == 0
    }

    /// Overwrites the cell at `index` and re-merges its ancestors.
    pub fn update(&mut self, index: usize, value: T)
        requires
            old(self).wf(),
            old(self).merge_callable(),
            index < old(self).spec_len(),
        ensures
            final(self).wf(),
            final(self).merge_callable(),
            final(self).spec_len() == old(self).spec_len(),
    {
        let mut i = self.n + index;
        self.tree.set(i, value);
        while i > 1
            invariant
                self.wf(),
                self.merge_callable(),
                self.spec_len() == old(self).spec_len(),
                1 <= self.spec_len(),
                1 <= i < 2 * self.spec_len(),
            decreases i,
        {
            i = i / 2;
            let merged = (self.merge)(&self.tree[2 * i], &self.tree[2 * i + 1]);
            self.tree.set(i, merged);
        }
    }

    /// The merge of cells `left .. right` (half-open), the identity for
    /// an empty range; the range is clipped to the cells.
    pub fn query(&self, left: usize, right: usize) -> (r: T)
        requires
            self.wf(),
            self.merge_callable(),
    {
        if left >= right || left >= self.n {
            return self.identity.clone();
        }
        let right = if right < self.n {
            right
        } else {
            self.n
        };
        let mut left_idx = self.n + left;
        let mut right_idx = self.n + right;
        let mut left_result = self.identity.clone();
        let mut right_result = self.identity.clone();
        while left_idx < right_idx
            invariant
                self.wf(),
                self.merge_callable(),
                1 <= self.spec_len(),
                right_idx <= 2 * self.spec_len(),
            decreases right_idx,
        {
            if left_idx % 2 == 1 {
                let merged = (self.merge)(&left_result, &self.tree[left_idx]);
                left_result = merged;
                left_idx = left_idx + 1;
            }
            if right_idx % 2 == 1 {
                right_idx = right_idx - 1;
                let merged = (self.merge)(&self.tree[right_idx], &right_result);
                right_result = merged;
            }
            left_idx = left_idx / 2;
            right_idx = right_idx / 2;
        }
        (self.merge)(&left_result, &right_result)
    }

    /// The value of the cell at `index`, if in range.
    pub fn get(&self, index: usize) -> (r: Option<&T>)
        requires
            self.wf(),
    {
        if index < self.n {
            Some(&self.tree[self.n + index])
        } else {
            None
        }
    }
}

/// Adds two totals, clamping at the machine limits.
pub(crate) fn sat_add_total(a: i64, b: i64) -> (r: i64)
    ensures
        a + b > i64::MAX ==> r == i64::MAX,
        a + b < i64::MIN ==> r == i64::MIN,
        i64::MIN <= a + b <= i64::MAX ==> r == a + b,
{
    if b >= 0 {
        if a > i64::MAX - b {
            i64::MAX
        } else {
            a + b
        }
    } else {
        if a < i64::MIN - b {
            i64::MIN
        } else {
            a + b
        }
    }
}

/// `s` is a power of two.
pub open spec fn is_pow2(s: nat) -> bool
    decreases s,
{
    if s == 0 {
        false
    } else if s == 1 {
        true
    } else {
        s % 2 == 0 && is_pow2(s / 2)
    }
}

/// The smallest power of two not below `size`.
fn next_pow2(size: usize) -> (r: usize)
    requires
        size <= 0x20000000,
    ensures
        is_pow2(r as nat),
        r >= size,
        r >= 1,
        r <= 0x40000000,
{
    let mut step: usize = 1;
    while step < size
        invariant
            is_pow2(step as nat),
            1 <= step <= 0x40000000,
            size <= 0x20000000,
        decreases 2 * size - step,
    {
        step = step * 2;
    }
    step
}

/// Multiplies a delta by a cell count, clamping at the machine limits.
fn sat_mul_count(delta: i64, count: usize) -> (r: i64)
    ensures
        delta * count > i64::MAX ==> r == i64::MAX,
        delta * count < i64::MIN ==> r == i64::MIN,
        i64::MIN <= delta * count <= i64::MAX ==> r == delta * count,
{
    proof {
        assert((delta as i128) * (count as i128) <= 0x8000000000000000i128 * 0xffffffffffffffffi128
            && (delta as i128) * (count as i128) >= -0x8000000000000000i128 * 0xffffffffffffffffi128)
            by (nonlinear_arith)
            requires
                -0x8000000000000000i128 <= (delta as i128) <= 0x7fffffffffffffffi128,
                0 <= (count as i128) <= 0xffffffffffffffffi128,
        {}
    }
    let wide = (delta as i128) * (count as i128);
    if wide > i64::MAX as i128 {
        i64::MAX
    } else if wide < i64::MIN as i128 {
        i64::MIN
    } else {
        wide as i64
    }
}

/// A segment tree over `n` padded cells (a power of two) that adds to
/// whole ranges lazily; sums clamp at the machine limits.
pub struct LazySegmentTree {
    tree: Vec<i64>,
    lazy: Vec<i64>,
    n: usize,
}

impl LazySegmentTree {
    /// The padded cell count: the smallest power of two covering the
    /// cells the tree was built over.
    pub closed spec fn spec_n(&self) -> nat {
        self.n as nat
    }

    /// Well-formedness: the padded count is a positive power of two and
    /// both backing arrays hold two slots per padded cell.
    pub open spec fn wf(&self) -> bool {
        &&& is_pow2(self.spec_n())
        &&& self.spec_n() <= 0x40000000
        &&& self.tree_len() == 2 * self.spec_n()
        &&& self.lazy_len() == 2 * self.spec_n()
    }

    /// The value array's length.
    pub closed spec fn tree_len(&self) -> nat {
        self.tree@.len()
    }

    /// The pending-add array's length.
    pub closed spec fn lazy_len(&self) -> nat {
        self.lazy@.len()
    }

    /// A zeroed tree covering at least `size` cells.
    pub fn new(size: usize) -> (r: Self)
        requires
            size <= 0x20000000,
        ensures
            r.wf(),
            r.spec_n() >= size,
    {
        let n = next_pow2(size);
        let slots = 2 * n;
        let mut tree: Vec<i64> = Vec::new();
        let mut lazy: Vec<i64> = Vec::new();
        for i in 0..slots
            invariant
                tree@.len() == i,
                lazy@.len() == i,
        {
            tree.push(0);
            lazy.push(0);
        }
        LazySegmentTree { tree, lazy, n }
    }

    /// A tree holding the given cell values (padded with zeros).
    pub fn from_slice(arr: &Vec<i64>) -> (r: Self)
        requires
            arr@.len() <= 0x20000000,
        ensures
            r.wf(),
            r.spec_n() >= arr@.len(),
    {
        let size = arr.len();
        let n = next_pow2(size);
        let slots = 2 * n;
        let mut tree: Vec<i64> = Vec::new();
        let mut lazy: Vec<i64> = Vec::new();
        for i in 0..slots
            invariant
                tree@.len() == i,
                lazy@.len() == i,
        {
            tree.push(0);
            lazy.push(0);
        }
        for i in 0..size
            invariant
                size == arr@.len(),
                size <= n,
                n <= 0x40000000,
                tree@.len() == 2 * n,
        {
            tree.set(n + i, arr[i]);
        }
        let mut i = n;
        while i > 1
            invariant
                1 <= i <= n,
                n <= 0x40000000,
                tree@.len() == 2 * n,
            decreases i,
        {
            i = i - 1;
            let merged = sat_add_total(tree[2 * i], tree[2 * i + 1]);
            tree.set(i, merged);
        }
        LazySegmentTree { tree, lazy, n }
    }

    /// The padded cell count.
    pub fn len(&self) -> (r: usize)
        ensures
            r == self.spec_n(),
    {
        self.n
    }

    /// Returns `true` if the padded cell count is zero (it never is:
    /// even an empty tree pads to one cell).
    pub fn is_empty(&self) -> (r: bool)
        ensures
            r == (self.spec_n() == 0),
    {
        self.n == 0
    }

    /// Pushes a node's pending add down to its children.
    fn push_down(&mut self, node: usize, half: usize)
        requires
            old(self).wf(),
            1 <= node,
            1 <= half,
            (2 * node + 2) * half <= 2 * old(self).spec_n(),
        ensures
            final(self).wf(),
            final(self).spec_n() == old(self).spec_n(),
    {
        proof {
            assert(2 * node + 2 <= (2 * node + 2) * half) by (nonlinear_arith)
                requires
                    half >= 1,
                    node >= 1,
            {}
        }
        let pending = self.lazy[node];
        if pending != 0 {
            let l = 2 * node;
            let r = 2 * node + 1;
            let add = sat_mul_count(pending, half);
            let tl = sat_add_total(self.tree[l], add);
            self.tree.set(l, tl);
            let tr = sat_add_total(self.tree[r], add);
            self.tree.set(r, tr);
            let ll = sat_add_total(self.lazy[l], pending);
            self.lazy.set(l, ll);
            let lr = sat_add_total(self.lazy[r], pending);
            self.lazy.set(r, lr);
            self.lazy.set(node, 0);
        }
    }

    /// Adds `delta` to every cell of `left .. right` within the node
    /// covering `node_left .. node_right`.
    fn range_add_helper(
        &mut self,
        node: usize,
        node_left: usize,
        node_right: usize,
        left: usize,
        right: usize,
        delta: i64,
    )
        requires
            old(self).wf(),
            1 <= node,
            node_left < node_right,
            node_right <= old(self).spec_n(),
            is_pow2((node_right - node_left) as nat),
            (node + 1) * (node_right - node_left) <= 2 * old(self).spec_n(),
        ensures
            final(self).wf(),
            final(self).spec_n() == old(self).spec_n(),
        decreases node_right - node_left,
    {
        proof {
            assert(node + 1 <= (node + 1) * (node_right - node_left)) by (nonlinear_arith)
                requires
                    node_right - node_left >= 1,
                    node >= 1,
            {}
        }
        if left >= node_right || right <= node_left {
            return;
        }
        if left <= node_left && node_right <= right {
            let add = sat_mul_count(delta, node_right - node_left);
            let tv = sat_add_total(self.tree[node], add);
            self.tree.set(node, tv);
            let lv = sat_add_total(self.lazy[node], delta);
            self.lazy.set(node, lv);
            return;
        }
        let size = node_right - node_left;
        proof {
            assert(size >= 2);
            assert(size % 2 == 0);
            assert((2 * node + 2) * (size / 2) == (node + 1) * size) by (nonlinear_arith)
                requires
                    size % 2 == 0,
                    size >= 2,
            {}
            assert((2 * node + 1) * (size / 2) <= (2 * node + 2) * (size / 2))
                by (nonlinear_arith)
                requires
                    size >= 2,
            {}
        }
        let mid = node_left + size / 2;
        self.push_down(node, size / 2);
        self.range_add_helper(2 * node, node_left, mid, left, right, delta);
        self.range_add_helper(2 * node + 1, mid, node_right, left, right, delta);
        proof {
            assert(2 * node + 2 <= (2 * node + 2) * (size / 2)) by (nonlinear_arith)
                requires
                    size / 2 >= 1,
                    node >= 1,
            {}
        }
        let merged = sat_add_total(self.tree[2 * node], self.tree[2 * node + 1]);
        self.tree.set(node, merged);
    }

    /// Adds `delta` to every cell of `left .. right` (half-open).
    pub fn range_add(&mut self, left: usize, right: usize, delta: i64)
        requires
            old(self).wf(),
        ensures
            final(self).wf(),
            final(self).spec_n() == old(self).spec_n(),
    {
        let n = self.n;
        self.range_add_helper(1, 0, n, left, right, delta);
    }

    /// The sum of cells `left .. right` within the node covering
    /// `node_left .. node_right`.
    fn query_helper(
        &mut self,
        node: usize,
        node_left: usize,
        node_right: usize,
        left: usize,
        right: usize,
    ) -> (r: i64)
        requires
            old(self).wf(),
            1 <= node,
            node_left < node_right,
            node_right <= old(self).spec_n(),
            is_pow2((node_right - node_left) as nat),
            (node + 1) * (node_right - node_left) <= 2 * old(self).spec_n(),
        ensures
            final(self).wf(),
            final(self).spec_n() == old(self).spec_n(),
        decreases node_right - node_left,
    {
        proof {
            assert(node + 1 <= (node + 1) * (node_right - node_left)) by (nonlinear_arith)
                requires
                    node_right - node_left >= 1,
                    node >= 1,
            {}
        }
        if left >= node_right || right <= node_left {
            return 0;
        }
        if left <= node_left && node_right <= right {
            return self.tree[node];
        }
        let size = node_right - node_left;
        proof {
            assert(size >= 2);
            assert(size % 2 == 0);
            assert((2 * node + 2) * (size / 2) == (node + 1) * size) by (nonlinear_arith)
                requires
                    size % 2 == 0,
                    size >= 2,
            {}
            assert((2 * node + 1) * (size / 2) <= (2 * node + 2) * (size / 2))
                by (nonlinear_arith)
                requires
                    size >= 2,
            {}
        }
        let mid = node_left + size / 2;
        self.push_down(node, size / 2);
        let a = self.query_helper(2 * node, node_left, mid, left, right);
        let b = self.query_helper(2 * node + 1, mid, node_right, left, right);
        sat_add_total(a, b)
    }

    /// The sum of cells `left .. right` (half-open), clamped at the
    /// machine limits.
    pub fn query(&mut self, left: usize, right: usize) -> (r: i64)
        requires
            old(self).wf(),
        ensures
            final(self).wf(),
            final(self).spec_n() == old(self).spec_n(),
    {
        let n = self.n;
        self.query_helper(1, 0, n, left, right)
    }
}

} // verus!
