//! Binary indexed (Fenwick) trees for prefix sums, in one and two
//! dimensions.
//!
//! Cells are 1-indexed; slot 0 of the backing array is unused. Sums
//! saturate at the machine limits instead of wrapping.

use vstd::prelude::*;
use vstd::pervasive::VecAdditionalExecFns;
use crate::traits::Container;

verus! {

/// The lowest set bit of a positive number — the largest power of two
/// dividing it: at least 1, at most the number itself.
fn lowbit(x: usize) -> (r: usize)
    requires
        x >= 1,
    ensures
        1 <= r <= x,
{
    let mut lb: usize = 1;
    let mut y = x;
    while y % 2 == 0
        invariant
            1 <= lb,
            1 <= y,
            lb * y == x,
        decreases y,
    {
        proof {
            assert(lb * 2 <= x && (lb * 2) * (y / 2) == lb * y) by (nonlinear_arith)
                requires
                    y % 2 == 0,
                    y >= 2,
                    lb >= 1,
                    lb * y == x,
            {}
        }
        y = y / 2;
        lb = lb * 2;
    }
    proof {
        assert(lb <= x) by (nonlinear_arith)
            requires
                lb * y == x,
                y >= 1,
                lb >= 1,
        {}
    }
    lb
}

/// Adds two totals, clamping at the machine limits.
fn sat_add(a: i64, b: i64) -> (r: i64)
    ensures
        a + b > i64::MAX ==> r == i64::MAX,
        a + b < i64::MIN ==> r == i64::MIN,
        i64::MIN <= a + b <= i64::MAX ==> r == a + b,
{
    if b >= 0 {
        if a > i64::MAX - b {
            i64::MAX
        } else {
            a + b
        }
    } else {
        if a < i64::MIN - b {
            i64::MIN
        } else {
            a + b
        }
    }
}

/// Subtracts one total from another, clamping at the machine limits.
fn sat_sub(a: i64, b: i64) -> (r: i64)
    ensures
        a - b > i64::MAX ==> r == i64::MAX,
        a - b < i64::MIN ==> r == i64::MIN,
        i64::MIN <= a - b <= i64::MAX ==> r == a - b,
{
    if b <= 0 {
        if a > i64::MAX + b {
            i64::MAX
        } else {
            a - b
        }
    } else {
        if a < i64::MIN + b {
            i64::MIN
        } else {
            a - b
        }
    }
}

/// A one-dimensional Fenwick tree over `len` cells.
pub struct FenwickTree {
    tree: Vec<i64>,
    len: usize,
}

impl FenwickTree {
    /// The number of cells.
    pub closed spec fn spec_len(&self) -> nat {
        self.len as nat
    }

    /// Well-formedness: one backing slot per cell, plus the unused
    /// slot 0.
    pub open spec fn wf(&self) -> bool {
        self.tree_len() == self.spec_len() + 1
    }

    /// The backing array's length.
    pub closed spec fn tree_len(&self) -> nat {
        self.tree@.len()
    }

    /// A tree of `size` cells, all zero.
    pub fn new(size: usize) -> (r: Self)
        requires
            size < usize::MAX,
        ensures
            r.wf(),
            r.spec_len() == size,
    {
        let mut tree: Vec<i64> = Vec::new();
        let slots = size + 1;
        for i in 0..slots
            invariant
                tree@.len() == i,
        {
            tree.push(0);
        }
        FenwickTree { tree, len: size }
    }

    /// A tree holding the given cell values.
    pub fn from_slice(arr: &Vec<i64>) -> (r: Self)
        requires
            arr@.len() < usize::MAX,
        ensures
            r.wf(),
            r.spec_len() == arr@.len(),
    {
        let n = arr.len();
        let mut tree: Vec<i64> = Vec::new();
        tree.push(0);
        for i in 0..n
            invariant
                n == arr@.len(),
                tree@.len() == i + 1,
        {
            tree.push(arr[i]);
        }
        for i in 1..n + 1
            invariant
                n < usize::MAX,
                1 <= i,
                tree@.len() == n + 1,
        {
            let lb = lowbit(i);
            if lb <= n && i <= n - lb {
                let parent = i + lb;
                let merged = sat_add(tree[parent], tree[i]);
                tree.set(parent, merged);
            }
        }
        FenwickTree { tree, len: n }
    }

    /// The number of cells.
    pub fn len(&self) -> (r: usize)
        ensures
            r == self.spec_len(),
    {
        self.len
    }

    /// Returns `true` if the tree has no cells.
    pub fn is_empty(&self) -> (r: bool)
        ensures
            r == (self.spec_len() == 0),
    {
        self.len == 0
    }

    /// Adds `delta` to the cell at `index` (1-based); an index of 0 or
    /// past the end changes nothing.
    pub fn update(&mut self, index: usize, delta: i64)
        requires
            old(self).wf(),
        ensures
            final(self).wf(),
            final(self).spec_len() == old(self).spec_len(),
    {
        if index == 0 {
            return;
        }
        let mut i = index;
        while i <= self.len
            invariant
                self.wf(),
                self.spec_len() == old(self).spec_len(),
                i >= 1,
            decreases self.spec_len() + 1 - i,
        {
            let merged = sat_add(self.tree[i], delta);
            self.tree.set(i, merged);
            let lb = lowbit(i);
            if i > self.len - lb {
                break;
            }
            i = i + lb;
        }
    }

    /// Overwrites the cell at `index` (1-based) with `value`.
    pub fn set(&mut self, index: usize, value: i64)
        requires
            old(self).wf(),
        ensures
            final(self).wf(),
            final(self).spec_len() == old(self).spec_len(),
    {
        let current = self.get(index);
        self.update(index, sat_sub(value, current));
    }

    /// The value of the cell at `index` (1-based); 0 out of range.
    pub fn get(&self, index: usize) -> (r: i64)
        requires
            self.wf(),
    {
        self.range_sum(index, index)
    }

    /// The sum of cells `1 ..= index`, clamped at the machine limits;
    /// an index past the end sums every cell.
    pub fn prefix_sum(&self, index: usize) -> (r: i64)
        requires
            self.wf(),
    {
        let mut i = if index <= self.len {
            index
        } else {
            self.len
        };
        let mut sum: i64 = 0;
        while i > 0
            invariant
                self.wf(),
                i <= self.spec_len(),
            decreases i,
        {
            sum = sat_add(sum, self.tree[i]);
            let lb = lowbit(i);
            i = i - lb;
        }
        sum
    }

    /// The sum of cells `left ..= right` (1-based), clamped at the
    /// machine limits; 0 when the range is empty or starts at 0.
    pub fn range_sum(&self, left: usize, right: usize) -> (r: i64)
        requires
            self.wf(),
    {
        if left > right || left == 0 {
            return 0;
        }
        sat_sub(self.prefix_sum(right), self.prefix_sum(left - 1))
    }

    /// With non-negative cells: the first position whose prefix sum
    /// reaches `value`; 0 when `value` is not positive, one past the
    /// end when the whole sum falls short.
    pub fn lower_bound(&self, value: i64) -> (r: usize)
        requires
            self.wf(),
            self.spec_len() < usize::MAX,
        ensures
            r <= self.spec_len() + 1,
    {
        if value <= 0 {
            return 0;
        }
        let mut remaining = value;
        let mut step: usize = 1;
        let mut budget: usize = 64;
        while budget > 0 && step < self.len
            invariant
                step >= 1,
            decreases budget,
        {
            if step > usize::MAX / 2 {
                break;
            }
            step = step * 2;
            budget = budget - 1;
        }
        let mut pos: usize = 0;
        while step > 0
            invariant
                self.wf(),
                pos <= self.spec_len(),
            decreases step,
        {
            if step <= self.len && pos <= self.len - step {
                let next = pos + step;
                if self.tree[next] < remaining {
                    pos = next;
                    remaining = sat_sub(remaining, self.tree[pos]);
                }
            }
            step = step / 2;
        }
        pos + 1
    }
}

impl Container for FenwickTree {
    fn len(&self) -> usize {
        self.len
    }

    fn is_empty(&self) -> bool {
        self.len == 0
    }
}

impl Default for FenwickTree {
    fn default() -> (r: Self)
        ensures
            r.wf(),
            r.spec_len() == 0,
    {
        FenwickTree::new(0)
    }
}

/// A two-dimensional Fenwick tree over `rows x cols` cells.
pub struct FenwickTree2D {
    tree: Vec<Vec<i64>>,
    rows: usize,
    cols: usize,
}

impl FenwickTree2D {
    /// The number of rows of cells.
    pub closed spec fn spec_rows(&self) -> nat {
        self.rows as nat
    }

    /// The number of columns of cells.
    pub closed spec fn spec_cols(&self) -> nat {
        self.cols as nat
    }

    /// Well-formedness: one backing row per cell row plus row 0, each
    /// with one slot per cell column plus column 0.
    pub open spec fn wf(&self) -> bool {
        &&& self.tree_rows() == self.spec_rows() + 1
        &&& forall|r: int| 0 <= r < self.tree_rows() ==> self.tree_row_len(r)
            == self.spec_cols() + 1
    }

    /// The number of backing rows.
    pub closed spec fn tree_rows(&self) -> nat {
        self.tree@.len()
    }

    /// The length of one backing row.
    pub closed spec fn tree_row_len(&self, r: int) -> nat {
        self.tree@[r]@.len()
    }

    /// A tree of `rows x cols` cells, all zero.
    pub fn new(rows: usize, cols: usize) -> (r: Self)
        requires
            rows < usize::MAX,
            cols < usize::MAX,
        ensures
            r.wf(),
            r.spec_rows() == rows,
            r.spec_cols() == cols,
    {
        let mut tree: Vec<Vec<i64>> = Vec::new();
        let row_slots = rows + 1;
        let col_slots = cols + 1;
        for i in 0..row_slots
            invariant
                col_slots == cols + 1,
                tree@.len() == i,
                forall|r: int| 0 <= r < i ==> (#[trigger] tree@[r])@.len() == col_slots,
        {
            let mut row: Vec<i64> = Vec::new();
            for j in 0..col_slots
                invariant
                    row@.len() == j,
            {
                row.push(0);
            }
            tree.push(row);
        }
        FenwickTree2D { tree, rows, cols }
    }

    /// A tree holding the given matrix of cell values (the first row
    /// fixes the width).
    pub fn from_matrix(matrix: &Vec<Vec<i64>>) -> (r: Self)
        requires
            matrix@.len() < usize::MAX,
            matrix@.len() > 0 ==> (matrix@[0])@.len() < usize::MAX,
        ensures
            r.wf(),
    {
        if matrix.len() == 0 {
            return Self::new(0, 0);
        }
        let rows = matrix.len();
        let cols = matrix[0].len();
        let mut bit = Self::new(rows, cols);
        for i in 0..rows
            invariant
                rows == matrix@.len(),
                bit.wf(),
                bit.spec_rows() == rows,
                bit.spec_cols() == cols,
        {
            let width = matrix[i].len();
            let row_width = if width < cols {
                width
            } else {
                cols
            };
            for j in 0..row_width
                invariant
                    rows == matrix@.len(),
                    i < rows,
                    row_width <= (matrix@[i as int])@.len(),
                    row_width <= cols,
                    bit.wf(),
                    bit.spec_rows() == rows,
                    bit.spec_cols() == cols,
            {
                let val = matrix[i][j];
                bit.update(i + 1, j + 1, val);
            }
        }
        bit
    }

    /// Adds `delta` to the cell at `(row, col)` (1-based); an index of
    /// 0 or past the end changes nothing.
    pub fn update(&mut self, row: usize, col: usize, delta: i64)
        requires
            old(self).wf(),
        ensures
            final(self).wf(),
            final(self).spec_rows() == old(self).spec_rows(),
            final(self).spec_cols() == old(self).spec_cols(),
    {
        if row == 0 || col == 0 {
            return;
        }
        let mut r = row;
        while r <= self.rows
            invariant
                self.wf(),
                self.spec_rows() == old(self).spec_rows(),
                self.spec_cols() == old(self).spec_cols(),
                r >= 1,
                col >= 1,
            decreases self.spec_rows() + 1 - r,
        {
            let mut c = col;
            while c <= self.cols
                invariant
                    self.wf(),
                    self.spec_rows() == old(self).spec_rows(),
                    self.spec_cols() == old(self).spec_cols(),
                    r >= 1,
                    r <= self.spec_rows(),
                    c >= 1,
                decreases self.spec_cols() + 1 - c,
            {
                let ghost snap = *self;
                let ghost before = self.tree@;
                proof {
                    assert(self.tree_row_len(r as int) == self.spec_cols() + 1);
                }
                let mut t_row = self.tree.remove(r);
                let merged = sat_add(t_row[c], delta);
                t_row.set(c, merged);
                self.tree.insert(r, t_row);
                proof {
                    assert(self.tree@ =~= before.update(r as int, self.tree@[r as int]));
                    assert forall|q: int| 0 <= q < self.tree@.len() implies
                        (#[trigger] self.tree@[q])@.len() == self.spec_cols() + 1 by {
                        assert(snap.tree_row_len(q) == snap.spec_cols() + 1);
                        if q != r {
                            assert(self.tree@[q] == before[q]);
                        }
                    }
                }
                let lb = lowbit(c);
                if c > self.cols - lb {
                    break;
                }
                c = c + lb;
            }
            let lb = lowbit(r);
            if r > self.rows - lb {
                break;
            }
            r = r + lb;
        }
    }

    /// The sum of the cell block `(1, 1) ..= (row, col)`, clamped at
    /// the machine limits; indices past the end take the whole extent.
    pub fn prefix_sum(&self, row: usize, col: usize) -> (r: i64)
        requires
            self.wf(),
    {
        let mut rr = if row <= self.rows {
            row
        } else {
            self.rows
        };
        let col0 = if col <= self.cols {
            col
        } else {
            self.cols
        };
        let mut sum: i64 = 0;
        while rr > 0
            invariant
                self.wf(),
                rr <= self.spec_rows(),
                col0 <= self.spec_cols(),
            decreases rr,
        {
            let mut c = col0;
            while c > 0
                invariant
                    self.wf(),
                    rr >= 1,
                    rr <= self.spec_rows(),
                    c <= self.spec_cols(),
                decreases c,
            {
                proof {
                    assert(self.tree_row_len(rr as int) == self.spec_cols() + 1);
                }
                sum = sat_add(sum, self.tree[rr][c]);
                let lb = lowbit(c);
                c = c - lb;
            }
            let lb = lowbit(rr);
            rr = rr - lb;
        }
        sum
    }

    /// The sum of the cell block `(r1, c1) ..= (r2, c2)` (1-based),
    /// clamped at the machine limits; 0 when the block is empty.
    pub fn range_sum(&self, r1: usize, c1: usize, r2: usize, c2: usize) -> (r: i64)
        requires
            self.wf(),
    {
        if r1 == 0 || c1 == 0 || r1 > r2 || c1 > c2 {
            return 0;
        }
        let whole = self.prefix_sum(r2, c2);
        let above = self.prefix_sum(r1 - 1, c2);
        let left = self.prefix_sum(r2, c1 - 1);
        let corner = self.prefix_sum(r1 - 1, c1 - 1);
        sat_add(sat_sub(sat_sub(whole, above), left), corner)
    }
}

} // verus!
