//! Comparison and distribution sorts.
//!
//! The in-place comparison sorts move elements only by exchanging two
//! positions, so each one unconditionally preserves the multiset of
//! elements; when the element type's ordering is specified and total
//! (`ord_is_total`), the result is additionally proved sorted.

use vstd::prelude::*;
use vstd::seq_lib::lemma_multiset_commutative;
use crate::keys::le_spec;
use crate::keys::ord_is_total;

verus! {

/// The sequence is ordered by `le_spec`: every element is at most every
/// later one.
pub open spec fn sorted<T: PartialOrd>(s: Seq<T>) -> bool {
    forall|i: int, j: int| 0 <= i <= j < s.len() ==> le_spec(s[i], s[j])
}

/// A chain of adjacent bounds extends to any pair of positions.
proof fn lemma_le_chain<T: PartialOrd>(s: Seq<T>, i: int, j: int)
    requires
        ord_is_total::<T>(),
        forall|q: int| 0 <= q < s.len() - 1 ==> #[trigger] le_spec(s[q], s[q + 1]),
        0 <= i <= j < s.len(),
    ensures
        le_spec(s[i], s[j]),
    decreases j - i,
{
    if i == j {
        assert(le_spec(s[i], s[i])) by {
            assert(le_spec(s[i], s[i]) || le_spec(s[i], s[i]));
        }
    } else {
        lemma_le_chain(s, i, j - 1);
        let q = j - 1;
        assert(le_spec(s[q], s[q + 1]));
        assert(s[q + 1] == s[j]);
    }
}

/// A sequence whose adjacent pairs are ordered is sorted.
proof fn lemma_adjacent_sorted<T: PartialOrd>(s: Seq<T>)
    requires
        ord_is_total::<T>(),
        forall|q: int| 0 <= q < s.len() - 1 ==> #[trigger] le_spec(s[q], s[q + 1]),
    ensures
        sorted(s),
{
    assert forall|i: int, j: int| 0 <= i <= j < s.len() implies le_spec(s[i], s[j]) by {
        lemma_le_chain(s, i, j);
    }
}

/// Under a total order every element bounds itself.
proof fn lemma_le_refl<T: PartialOrd>(x: T)
    requires
        ord_is_total::<T>(),
    ensures
        le_spec(x, x),
{
    assert(le_spec(x, x) || le_spec(x, x));
}

/// Exchanging two positions does not change the multiset of elements.
proof fn lemma_swap_multiset<T>(s: Seq<T>, i: int, j: int)
    requires
        0 <= i <= j < s.len(),
    ensures
        s.update(i, s[j]).update(j, s[i]).to_multiset() == s.to_multiset(),
{
    let t = s.update(i, s[j]).update(j, s[i]);
    if i == j {
        assert(t =~= s);
    } else {
        let a = s.subrange(0, i);
        let b = s.subrange(i + 1, j);
        let c = s.subrange(j + 1, s.len() as int);
        assert(s =~= a + seq![s[i]] + b + seq![s[j]] + c);
        assert(t =~= a + seq![s[j]] + b + seq![s[i]] + c);
        lemma_concat5_multiset(a, seq![s[i]], b, seq![s[j]], c);
        lemma_concat5_multiset(a, seq![s[j]], b, seq![s[i]], c);
        assert((a + seq![s[i]] + b + seq![s[j]] + c).to_multiset()
            =~= (a + seq![s[j]] + b + seq![s[i]] + c).to_multiset());
    }
}

/// The multiset of a five-way concatenation is the sum of the parts.
proof fn lemma_concat5_multiset<T>(a: Seq<T>, b: Seq<T>, c: Seq<T>, d: Seq<T>, e: Seq<T>)
    ensures
        (a + b + c + d + e).to_multiset() == a.to_multiset().add(b.to_multiset()).add(
            c.to_multiset()).add(d.to_multiset()).add(e.to_multiset()),
{
    lemma_multiset_commutative(a, b);
    lemma_multiset_commutative(a + b, c);
    lemma_multiset_commutative(a + b + c, d);
    lemma_multiset_commutative(a + b + c + d, e);
}

/// Exchanges the elements at positions `i` and `j`.
pub(crate) fn exchange<T>(arr: &mut Vec<T>, i: usize, j: usize)
    requires
        i < old(arr)@.len(),
        j < old(arr)@.len(),
    ensures
        final(arr)@ == old(arr)@.update(i as int, old(arr)@[j as int]).update(
            j as int, old(arr)@[i as int]),
        final(arr)@.to_multiset() == old(arr)@.to_multiset(),
        final(arr)@.len() == old(arr)@.len(),
{
    let ghost s = arr@;
    if i != j {
        let (a, b) = if i < j {
            (i, j)
        } else {
            (j, i)
        };
        let x = arr.remove(b);
        let y = arr.remove(a);
        arr.insert(a, x);
        arr.insert(b, y);
        proof {
            assert(arr@ =~= s.update(i as int, s[j as int]).update(j as int, s[i as int]));
        }
    } else {
        proof {
            assert(arr@ =~= s.update(i as int, s[j as int]).update(j as int, s[i as int]));
        }
    }
    proof {
        if i <= j {
            lemma_swap_multiset(s, i as int, j as int);
        } else {
            lemma_swap_multiset(s, j as int, i as int);
            assert(s.update(j as int, s[i as int]).update(i as int, s[j as int])
                =~= s.update(i as int, s[j as int]).update(j as int, s[i as int]));
        }
    }
}

/// Bubble sort: repeatedly exchanges adjacent out-of-order elements,
/// stopping early once a pass makes no exchange.
pub fn bubble_sort<T: Ord>(arr: &mut Vec<T>)
    ensures
        final(arr)@.to_multiset() == old(arr)@.to_multiset(),
        final(arr)@.len() == old(arr)@.len(),
        ord_is_total::<T>() ==> sorted(final(arr)@),
{
    let n = arr.len();
    if n <= 1 {
        proof {
            if ord_is_total::<T>() {
                lemma_adjacent_sorted(arr@);
            }
        }
        return;
    }
    let ghost orig = arr@;
    for i in 0..n
        invariant
            orig == old(arr)@,
            n == old(arr)@.len(),
            n == arr@.len(),
            arr@.to_multiset() == orig.to_multiset(),
            ord_is_total::<T>() ==> ({
                &&& forall|p: int, q: int|
                    n - i <= q < n && 0 <= p <= q ==> le_spec(arr@[p], arr@[q])
            }),
    {
        let mut swapped = false;
        let pass_end = n - 1 - i;
        for j in 0..pass_end
            invariant
                orig == old(arr)@,
                n == old(arr)@.len(),
                n == arr@.len(),
                pass_end == n - 1 - i,
                arr@.to_multiset() == orig.to_multiset(),
                ord_is_total::<T>() ==> ({
                    &&& forall|p: int, q: int|
                        n - i <= q < n && 0 <= p <= q ==> le_spec(arr@[p], arr@[q])
                    &&& forall|p: int| 0 <= p < j ==> le_spec(arr@[p], arr@[j as int])
                    &&& !swapped ==> forall|q: int|
                        0 <= q < j ==> #[trigger] le_spec(arr@[q], arr@[q + 1])
                }),
        {
            let ghost before = arr@;
            let gt = arr[j] > arr[j + 1];
            if gt {
                exchange(arr, j, j + 1);
                swapped = true;
            }
            proof {
                if ord_is_total::<T>() {
                    if gt {
                        assert(!le_spec(before[j as int], before[j + 1]));
                        assert(le_spec(before[j + 1], before[j as int]));
                        assert forall|p: int| 0 <= p < j + 1 implies
                            #[trigger] le_spec(arr@[p], arr@[j + 1]) by {
                            assert(arr@[j + 1] == before[j as int]);
                            if p < j {
                                assert(arr@[p] == before[p]);
                                assert(le_spec(before[p], before[j as int]));
                            } else {
                                assert(arr@[p] == before[j + 1]);
                            }
                        }
                        assert forall|p: int, q: int|
                            n - i <= q < n && 0 <= p <= q implies le_spec(arr@[p], arr@[q]) by {
                            assert(arr@[q] == before[q]);
                            if p == j {
                                assert(arr@[p] == before[j + 1]);
                                assert(le_spec(before[j + 1], before[q]));
                            } else if p == j + 1 {
                                assert(arr@[p] == before[j as int]);
                                assert(le_spec(before[j as int], before[q]));
                            } else {
                                assert(arr@[p] == before[p]);
                                assert(le_spec(before[p], before[q]));
                            }
                        }
                    } else {
                        assert(le_spec(arr@[j as int], arr@[j + 1]));
                        assert forall|p: int| 0 <= p < j + 1 implies
                            #[trigger] le_spec(arr@[p], arr@[j + 1]) by {
                            if p < j {
                                assert(le_spec(arr@[p], arr@[j as int]));
                            }
                        }
                    }
                }
            }
        }
        if !swapped {
            proof {
                if ord_is_total::<T>() {
                    assert forall|q: int| 0 <= q < n - 1 implies #[trigger] le_spec(arr@[q], arr@[q + 1]) by {
                        if q < pass_end {
                        } else {
                            assert(n - i <= q + 1 < n && 0 <= q <= q + 1);
                        }
                    }
                    lemma_adjacent_sorted(arr@);
                }
            }
            return;
        }
        proof {
            if ord_is_total::<T>() {
                assert forall|p: int, q: int|
                    n - (i + 1) <= q < n && 0 <= p <= q implies le_spec(arr@[p], arr@[q]) by {
                    if q == n - 1 - i {
                        if p == q {
                            lemma_le_refl(arr@[p]);
                        } else {
                            assert(le_spec(arr@[p], arr@[q]));
                        }
                    }
                }
            }
        }
    }
    proof {
        if ord_is_total::<T>() {
            assert forall|a: int, b: int| 0 <= a <= b < n implies le_spec(arr@[a], arr@[b]) by {
                assert(n - n <= b < n && 0 <= a <= b);
            }
        }
    }
}

/// Selection sort: repeatedly moves the least remaining element into
/// place.
pub fn selection_sort<T: Ord>(arr: &mut Vec<T>)
    ensures
        final(arr)@.to_multiset() == old(arr)@.to_multiset(),
        final(arr)@.len() == old(arr)@.len(),
        ord_is_total::<T>() ==> sorted(final(arr)@),
{
    let n = arr.len();
    if n <= 1 {
        proof {
            if ord_is_total::<T>() {
                lemma_adjacent_sorted(arr@);
            }
        }
        return;
    }
    let ghost orig = arr@;
    let outer_end = n - 1;
    for i in 0..outer_end
        invariant
            outer_end == n - 1,
            orig == old(arr)@,
            n == old(arr)@.len(),
            n == arr@.len(),
            arr@.to_multiset() == orig.to_multiset(),
            ord_is_total::<T>() ==> forall|p: int, q: int|
                0 <= p < i && p <= q < n ==> le_spec(arr@[p], arr@[q]),
    {
        let mut min_idx = i;
        let lo = i + 1;
        for j in lo..n
            invariant
                lo == i + 1,
                i < n,
                n == arr@.len(),
                i <= min_idx < n,
                ord_is_total::<T>() ==> forall|q: int|
                    i <= q < j ==> le_spec(arr@[min_idx as int], arr@[q]),
        {
            let lt = arr[j] < arr[min_idx];
            if lt {
                min_idx = j;
            }
        }
        proof {
            if ord_is_total::<T>() {
                assert(le_spec(arr@[min_idx as int], arr@[min_idx as int]));
            }
        }
        if min_idx != i {
            exchange(arr, i, min_idx);
        }
    }
    proof {
        if ord_is_total::<T>() {
            assert forall|a: int, b: int| 0 <= a <= b < n implies le_spec(arr@[a], arr@[b]) by {
                if a < n - 1 {
                } else {
                    assert(le_spec(arr@[a], arr@[a]));
                }
            }
        }
    }
}

/// Insertion sort: grows a sorted prefix, sliding each next element back
/// to its place.
pub fn insertion_sort<T: Ord>(arr: &mut Vec<T>)
    ensures
        final(arr)@.to_multiset() == old(arr)@.to_multiset(),
        final(arr)@.len() == old(arr)@.len(),
        ord_is_total::<T>() ==> sorted(final(arr)@),
{
    let n = arr.len();
    if n <= 1 {
        proof {
            if ord_is_total::<T>() {
                lemma_adjacent_sorted(arr@);
            }
        }
        return;
    }
    let ghost orig = arr@;
    for i in 1..n
        invariant
            orig == old(arr)@,
            n == old(arr)@.len(),
            n == arr@.len(),
            arr@.to_multiset() == orig.to_multiset(),
            ord_is_total::<T>() ==> forall|p: int, q: int|
                0 <= p <= q < i ==> le_spec(arr@[p], arr@[q]),
    {
        let mut j = i;
        while j > 0 && arr[j - 1] > arr[j]
            invariant
                orig == old(arr)@,
                n == old(arr)@.len(),
                n == arr@.len(),
                j <= i < n,
                arr@.to_multiset() == orig.to_multiset(),
                ord_is_total::<T>() ==> forall|p: int, q: int|
                    0 <= p < q <= i && q != j ==> le_spec(arr@[p], arr@[q]),
            decreases j,
        {
            let ghost before = arr@;
            exchange(arr, j - 1, j);
            proof {
                if ord_is_total::<T>() {
                    assert(!le_spec(before[j - 1], before[j as int]));
                    assert(le_spec(before[j as int], before[j - 1]));
                    assert forall|p: int, q: int|
                        0 <= p < q <= i && q != j - 1 implies le_spec(arr@[p], arr@[q]) by {
                        if q == j {
                            if p == j - 1 {
                            } else {
                                assert(le_spec(before[p], before[j - 1]));
                            }
                        } else if p == j - 1 {
                            assert(le_spec(before[j as int], before[q]));
                        } else if p == j {
                            assert(le_spec(before[j - 1], before[q]));
                        }
                    }
                }
            }
            j = j - 1;
        }
        proof {
            if ord_is_total::<T>() {
                if j == 0 {
                    assert forall|p: int, q: int| 0 <= p <= q < i + 1 implies
                        le_spec(arr@[p], arr@[q]) by {
                        if p == q {
                            lemma_le_refl(arr@[p]);
                        }
                    }
                } else {
                    assert(le_spec(arr@[j - 1], arr@[j as int]));
                    assert forall|p: int, q: int| 0 <= p <= q < i + 1 implies
                        le_spec(arr@[p], arr@[q]) by {
                        if p == q {
                            lemma_le_refl(arr@[p]);
                        } else if q == j {
                            if p < j - 1 {
                                assert(le_spec(arr@[p], arr@[j - 1]));
                            }
                        }
                    }
                }
            }
        }
    }
}

/// Merges two sorted vectors into one sorted vector (elements are
/// cloned, as the recursive halves are collected separately).
fn merge<T: Ord + Clone>(left: &Vec<T>, right: &Vec<T>) -> (out: Vec<T>)
    ensures
        out@.len() == left@.len() + right@.len(),
        ord_is_total::<T>() && crate::keys::clone_is_exact::<T>() ==> ({
            &&& out@.to_multiset() == (left@ + right@).to_multiset()
            &&& sorted(left@) && sorted(right@) ==> sorted(out@)
        }),
{
    broadcast use vstd::seq_lib::to_multiset_build;
    broadcast use vstd::seq_lib::lemma_multiset_commutative;

    let ghost cond = ord_is_total::<T>() && crate::keys::clone_is_exact::<T>();
    let ghost both_sorted = sorted(left@) && sorted(right@);
    let mut out: Vec<T> = Vec::new();
    let mut i: usize = 0;
    let mut j: usize = 0;
    let nl = left.len();
    let nr = right.len();
    proof {
        assert(left@.take(0) + right@.take(0) =~= Seq::<T>::empty());
        assert(out@ =~= Seq::<T>::empty());
    }
    while i < nl && j < nr
        invariant
            nl == left@.len(),
            nr == right@.len(),
            i <= nl,
            j <= nr,
            out@.len() == i + j,
            cond == (ord_is_total::<T>() && crate::keys::clone_is_exact::<T>()),
            both_sorted == (sorted(left@) && sorted(right@)),
            cond ==> out@.to_multiset() == (left@.take(i as int) + right@.take(j as int))
                .to_multiset(),
            cond && both_sorted ==> ({
                &&& sorted(out@)
                &&& forall|k: int| i <= k < nl ==> out_bounds(out@, left@[k])
                &&& forall|k: int| j <= k < nr ==> out_bounds(out@, right@[k])
            }),
        decreases nl + nr - i - j,
    {
        let take_left = left[i] <= right[j];
        let ghost prev = out@;
        if take_left {
            out.push(left[i].clone());
            i = i + 1;
        } else {
            out.push(right[j].clone());
            j = j + 1;
        }
        proof {
            if cond {
                let x = out@.last();
                if take_left {
                    assert(vstd::pervasive::cloned::<T>(left@[i - 1], x));
                    assert(x == left@[i - 1]);
                    assert(left@.take(i as int) =~= left@.take(i - 1).push(x));
                    lemma_push_concat_multiset(prev, left@.take(i - 1), right@.take(j as int), x);
                } else {
                    assert(vstd::pervasive::cloned::<T>(right@[j - 1], x));
                    assert(x == right@[j - 1]);
                    assert(right@.take(j as int) =~= right@.take(j - 1).push(x));
                    lemma_push_concat_multiset2(prev, left@.take(i as int), right@.take(j - 1), x);
                }
                if both_sorted {
                    if take_left {
                        assert(!le_spec(right@[j as int], left@[i - 1])
                            ==> le_spec(left@[i - 1], right@[j as int]));
                        assert forall|k: int| j <= k < nr implies out_bounds(out@, right@[k]) by {
                            assert(le_spec(right@[j as int], right@[k]));
                            assert forall|m: int| 0 <= m < out@.len() implies
                                #[trigger] le_spec(out@[m], right@[k]) by {
                                if m < prev.len() {
                                    assert(out_bounds(prev, right@[k]));
                                }
                            }
                        }
                        assert forall|k: int| i <= k < nl implies out_bounds(out@, left@[k]) by {
                            assert(le_spec(left@[i - 1], left@[k]));
                            assert forall|m: int| 0 <= m < out@.len() implies
                                #[trigger] le_spec(out@[m], left@[k]) by {
                                if m < prev.len() {
                                    assert(out_bounds(prev, left@[k]));
                                }
                            }
                        }
                    } else {
                        assert(le_spec(right@[j - 1], left@[i as int]));
                        assert forall|k: int| i <= k < nl implies out_bounds(out@, left@[k]) by {
                            assert(le_spec(left@[i as int], left@[k]));
                            assert forall|m: int| 0 <= m < out@.len() implies
                                #[trigger] le_spec(out@[m], left@[k]) by {
                                if m < prev.len() {
                                    assert(out_bounds(prev, left@[k]));
                                }
                            }
                        }
                        assert forall|k: int| j <= k < nr implies out_bounds(out@, right@[k]) by {
                            assert(le_spec(right@[j - 1], right@[k]));
                            assert forall|m: int| 0 <= m < out@.len() implies
                                #[trigger] le_spec(out@[m], right@[k]) by {
                                if m < prev.len() {
                                    assert(out_bounds(prev, right@[k]));
                                }
                            }
                        }
                    }
                    assert forall|a: int, b: int| 0 <= a <= b < out@.len() implies
                        le_spec(out@[a], out@[b]) by {
                        if b < prev.len() {
                            assert(le_spec(prev[a], prev[b]));
                        } else if a < b {
                            assert(out_bounds(prev, out@[b]));
                        } else {
                            lemma_le_refl(out@[a]);
                        }
                    }
                }
            }
        }
    }
    while i < nl
        invariant
            nl == left@.len(),
            nr == right@.len(),
            i <= nl,
            j <= nr,
            !(i < nl) || j == nr,
            out@.len() == i + j,
            cond == (ord_is_total::<T>() && crate::keys::clone_is_exact::<T>()),
            both_sorted == (sorted(left@) && sorted(right@)),
            cond ==> out@.to_multiset() == (left@.take(i as int) + right@.take(j as int))
                .to_multiset(),
            cond && both_sorted ==> ({
                &&& sorted(out@)
                &&& forall|k: int| i <= k < nl ==> out_bounds(out@, left@[k])
                &&& forall|k: int| j <= k < nr ==> out_bounds(out@, right@[k])
            }),
        decreases nl - i,
    {
        let ghost prev = out@;
        out.push(left[i].clone());
        i = i + 1;
        proof {
            if cond {
                let x = out@.last();
                assert(vstd::pervasive::cloned::<T>(left@[i - 1], x));
                assert(x == left@[i - 1]);
                assert(left@.take(i as int) =~= left@.take(i - 1).push(x));
                lemma_push_concat_multiset(prev, left@.take(i - 1), right@.take(j as int), x);
                if both_sorted {
                    assert forall|k: int| i <= k < nl implies out_bounds(out@, left@[k]) by {
                        assert(le_spec(left@[i - 1], left@[k]));
                        assert forall|m: int| 0 <= m < out@.len() implies
                            #[trigger] le_spec(out@[m], left@[k]) by {
                            if m < prev.len() {
                                assert(out_bounds(prev, left@[k]));
                            }
                        }
                    }
                    assert forall|a: int, b: int| 0 <= a <= b < out@.len() implies
                        le_spec(out@[a], out@[b]) by {
                        if b < prev.len() {
                            assert(le_spec(prev[a], prev[b]));
                        } else if a < b {
                            assert(out_bounds(prev, out@[b]));
                        } else {
                            lemma_le_refl(out@[a]);
                        }
                    }
                }
            }
        }
    }
    while j < nr
        invariant
            nl == left@.len(),
            nr == right@.len(),
            i == nl,
            j <= nr,
            out@.len() == i + j,
            cond == (ord_is_total::<T>() && crate::keys::clone_is_exact::<T>()),
            both_sorted == (sorted(left@) && sorted(right@)),
            cond ==> out@.to_multiset() == (left@.take(i as int) + right@.take(j as int))
                .to_multiset(),
            cond && both_sorted ==> ({
                &&& sorted(out@)
                &&& forall|k: int| j <= k < nr ==> out_bounds(out@, right@[k])
            }),
        decreases nr - j,
    {
        let ghost prev = out@;
        out.push(right[j].clone());
        j = j + 1;
        proof {
            if cond {
                let x = out@.last();
                assert(vstd::pervasive::cloned::<T>(right@[j - 1], x));
                assert(x == right@[j - 1]);
                assert(right@.take(j as int) =~= right@.take(j - 1).push(x));
                lemma_push_concat_multiset2(prev, left@.take(i as int), right@.take(j - 1), x);
                if both_sorted {
                    assert forall|k: int| j <= k < nr implies out_bounds(out@, right@[k]) by {
                        assert(le_spec(right@[j - 1], right@[k]));
                        assert forall|m: int| 0 <= m < out@.len() implies
                            #[trigger] le_spec(out@[m], right@[k]) by {
                            if m < prev.len() {
                                assert(out_bounds(prev, right@[k]));
                            }
                        }
                    }
                    assert forall|a: int, b: int| 0 <= a <= b < out@.len() implies
                        le_spec(out@[a], out@[b]) by {
                        if b < prev.len() {
                            assert(le_spec(prev[a], prev[b]));
                        } else if a < b {
                            assert(out_bounds(prev, out@[b]));
                        } else {
                            lemma_le_refl(out@[a]);
                        }
                    }
                }
            }
        }
    }
    proof {
        assert(left@.take(nl as int) =~= left@);
        assert(right@.take(nr as int) =~= right@);
    }
    out
}

/// Every element of `s` is at most `x`.
spec fn out_bounds<T: PartialOrd>(s: Seq<T>, x: T) -> bool {
    forall|m: int| 0 <= m < s.len() ==> #[trigger] le_spec(s[m], x)
}

/// Pushing `x` onto `a` matches extending the left part of a split
/// multiset.
proof fn lemma_push_concat_multiset<T>(a: Seq<T>, l: Seq<T>, r: Seq<T>, x: T)
    requires
        a.to_multiset() == (l + r).to_multiset(),
    ensures
        a.push(x).to_multiset() == (l.push(x) + r).to_multiset(),
{
    broadcast use vstd::seq_lib::to_multiset_build;

    lemma_multiset_commutative(l, r);
    lemma_multiset_commutative(l.push(x), r);
    assert(a.push(x).to_multiset() =~= (l.push(x) + r).to_multiset());
}

/// Pushing `x` onto `a` matches extending the right part of a split
/// multiset.
proof fn lemma_push_concat_multiset2<T>(a: Seq<T>, l: Seq<T>, r: Seq<T>, x: T)
    requires
        a.to_multiset() == (l + r).to_multiset(),
    ensures
        a.push(x).to_multiset() == (l + r.push(x)).to_multiset(),
{
    broadcast use vstd::seq_lib::to_multiset_build;

    lemma_multiset_commutative(l, r);
    lemma_multiset_commutative(l, r.push(x));
    assert(a.push(x).to_multiset() =~= (l + r.push(x)).to_multiset());
}

/// The recursive half of merge sort, on an owned vector.
fn msort<T: Ord + Clone>(v: Vec<T>) -> (out: Vec<T>)
    ensures
        out@.len() == v@.len(),
        ord_is_total::<T>() && crate::keys::clone_is_exact::<T>() ==> ({
            &&& out@.to_multiset() == v@.to_multiset()
            &&& sorted(out@)
        }),
    decreases v@.len(),
{
    let n = v.len();
    if n <= 1 {
        proof {
            if ord_is_total::<T>() {
                lemma_adjacent_sorted(v@);
            }
        }
        return v;
    }
    let mid = n / 2;
    let mut left = v;
    let right = left.split_off(mid);
    let ghost l0 = left@;
    let ghost r0 = right@;
    let ls = msort(left);
    let rs = msort(right);
    let out = merge(&ls, &rs);
    proof {
        if ord_is_total::<T>() && crate::keys::clone_is_exact::<T>() {
            lemma_multiset_commutative(ls@, rs@);
            lemma_multiset_commutative(l0, r0);
            assert(l0 + r0 =~= v@);
            assert((ls@ + rs@).to_multiset() =~= v@.to_multiset());
        }
    }
    out
}

/// Merge sort: splits the vector in half, sorts each half, and merges.
pub fn merge_sort<T: Ord + Clone>(arr: &mut Vec<T>)
    ensures
        final(arr)@.len() == old(arr)@.len(),
        ord_is_total::<T>() && crate::keys::clone_is_exact::<T>() ==> ({
            &&& final(arr)@.to_multiset() == old(arr)@.to_multiset()
            &&& sorted(final(arr)@)
        }),
{
    let owned = arr.split_off(0);
    proof {
        assert(owned@ =~= old(arr)@);
    }
    let sorted_vec = msort(owned);
    *arr = sorted_vec;
}

/// Lomuto-style partition around a median-of-three pivot. Rearranges
/// `arr` only by exchanges and returns the pivot's final position.
fn partition<T: Ord>(arr: &mut Vec<T>, low: usize, high: usize) -> (r: usize)
    requires
        low <= high < old(arr)@.len(),
    ensures
        low <= r <= high,
        final(arr)@.len() == old(arr)@.len(),
        final(arr)@.to_multiset() == old(arr)@.to_multiset(),
{
    let mid = low + (high - low) / 2;
    let c1 = arr[mid] < arr[low];
    if c1 {
        exchange(arr, low, mid);
    }
    let c2 = arr[high] < arr[low];
    if c2 {
        exchange(arr, low, high);
    }
    let c3 = arr[high] < arr[mid];
    if c3 {
        exchange(arr, mid, high);
    }
    exchange(arr, mid, high);
    let ghost orig = arr@;
    let mut i = low;
    for j in low..high
        invariant
            high < arr@.len(),
            low <= i <= j <= high,
            arr@.len() == orig.len(),
            arr@.to_multiset() == orig.to_multiset(),
    {
        let le = arr[j] <= arr[high];
        if le {
            exchange(arr, i, j);
            i = i + 1;
        }
    }
    exchange(arr, i, high);
    i
}

/// The recursive body of quicksort over the inclusive range
/// `low ..= high`.
fn quick_sort_helper<T: Ord>(arr: &mut Vec<T>, low: usize, high: usize)
    requires
        high < old(arr)@.len(),
        high < usize::MAX,
    ensures
        final(arr)@.len() == old(arr)@.len(),
        final(arr)@.to_multiset() == old(arr)@.to_multiset(),
    decreases high + 1 - low,
{
    if low < high {
        let pivot_idx = partition(arr, low, high);
        if pivot_idx > 0 {
            quick_sort_helper(arr, low, pivot_idx - 1);
        }
        quick_sort_helper(arr, pivot_idx + 1, high);
    }
}

/// Quicksort with a median-of-three pivot. Rearranges the vector only by
/// exchanges, so the multiset of elements is preserved.
pub fn quick_sort<T: Ord>(arr: &mut Vec<T>)
    ensures
        final(arr)@.len() == old(arr)@.len(),
        final(arr)@.to_multiset() == old(arr)@.to_multiset(),
{
    let n = arr.len();
    if n <= 1 {
        return;
    }
    quick_sort_helper(arr, 0, n - 1);
}

/// Sinks the element at `i` into the max-heap that occupies the first
/// `n` positions.
fn heapify<T: Ord>(arr: &mut Vec<T>, n: usize, i: usize)
    requires
        n <= old(arr)@.len(),
        i < n,
    ensures
        final(arr)@.len() == old(arr)@.len(),
        final(arr)@.to_multiset() == old(arr)@.to_multiset(),
    decreases n - i,
{
    let mut largest = i;
    if i <= (usize::MAX - 1) / 2 {
        let left = 2 * i + 1;
        if left < n {
            let c = arr[left] > arr[largest];
            if c {
                largest = left;
            }
        }
        if i <= (usize::MAX - 2) / 2 {
            let right = 2 * i + 2;
            if right < n {
                let c = arr[right] > arr[largest];
                if c {
                    largest = right;
                }
            }
        }
    }
    if largest != i {
        exchange(arr, i, largest);
        heapify(arr, n, largest);
    }
}

/// Heapsort: builds a max-heap, then repeatedly moves the root behind
/// the shrinking heap. Rearranges the vector only by exchanges, so the
/// multiset of elements is preserved.
pub fn heap_sort<T: Ord>(arr: &mut Vec<T>)
    ensures
        final(arr)@.len() == old(arr)@.len(),
        final(arr)@.to_multiset() == old(arr)@.to_multiset(),
{
    let n = arr.len();
    if n <= 1 {
        return;
    }
    let mut k = n / 2;
    while k > 0
        invariant
            n == arr@.len(),
            n == old(arr)@.len(),
            k <= n / 2,
            arr@.to_multiset() == old(arr)@.to_multiset(),
        decreases k,
    {
        k = k - 1;
        heapify(arr, n, k);
    }
    let mut m = n;
    while m > 1
        invariant
            n == arr@.len(),
            n == old(arr)@.len(),
            m <= n,
            arr@.to_multiset() == old(arr)@.to_multiset(),
        decreases m,
    {
        m = m - 1;
        exchange(arr, 0, m);
        heapify(arr, m, 0);
    }
}

/// The sequence of unsigned values is in ascending order.
pub open spec fn sorted_u32(s: Seq<u32>) -> bool {
    forall|i: int, j: int| 0 <= i <= j < s.len() ==> (#[trigger] s[i]) <= (#[trigger] s[j])
}

/// The sequence of signed values is in ascending order.
pub open spec fn sorted_i32(s: Seq<i32>) -> bool {
    forall|i: int, j: int| 0 <= i <= j < s.len() ==> (#[trigger] s[i]) <= (#[trigger] s[j])
}

/// Counting sort for unsigned values: tallies each value, then writes
/// the values back in ascending order.
pub fn counting_sort(arr: &mut Vec<u32>)
    requires
        (u32::MAX as usize) < usize::MAX,
    ensures
        final(arr)@.len() == old(arr)@.len(),
        sorted_u32(final(arr)@),
{
    let n = arr.len();
    if n <= 1 {
        return;
    }
    let mut max: u32 = arr[0];
    for i in 1..n
        invariant
            n == arr@.len(),
            arr@ == old(arr)@,
            forall|k: int| 0 <= k < i ==> (#[trigger] arr@[k]) <= max,
    {
        if arr[i] > max {
            max = arr[i];
        }
    }
    let mut count: Vec<usize> = vec_of_zeros((max as usize) + 1);
    for i in 0..n
        invariant
            n == arr@.len(),
            arr@ == old(arr)@,
            count@.len() == max as usize + 1,
            count_total(count@) == i,
            forall|k: int| 0 <= k < n ==> (#[trigger] arr@[k]) <= max,
            forall|d: int| 0 <= d < count@.len() ==> (#[trigger] count@[d]) <= i,
    {
        let v = arr[i] as usize;
        let c = count[v];
        proof {
            lemma_count_total_update(count@, v as int, (c + 1) as usize);
        }
        count.set(v, c + 1);
    }
    let mut out: Vec<u32> = Vec::new();
    let m = count.len();
    for val in 0..m
        invariant
            count@.len() == m,
            out@.len() == count_total(count@.take(val as int)),
            count_total(count@.take(val as int)) <= count_total(count@),
            forall|a: int, b: int|
                0 <= a <= b < out@.len() ==> (#[trigger] out@[a]) <= (#[trigger] out@[b]),
            forall|a: int| 0 <= a < out@.len() ==> (#[trigger] out@[a]) < val,
            m <= u32::MAX as usize + 1,
    {
        let cnt = count[val];
        let ghost base = out@;
        proof {
            lemma_count_total_take_step(count@, val as int);
            lemma_count_total_take_le(count@, val + 1);
        }
        for c in 0..cnt
            invariant
                out@ == base + Seq::new(c as nat, |x: int| val as u32),
                val < m && m <= u32::MAX as usize + 1,
        {
            out.push(val as u32);
            proof {
                assert(out@ =~= base + Seq::new((c + 1) as nat, |x: int| val as u32));
            }
        }
        proof {
            assert(out@ == base + Seq::new(cnt as nat, |x: int| val as u32));
            assert(out@.len() == count_total(count@.take(val + 1)));
            assert forall|a: int, b: int| 0 <= a <= b < out@.len() implies
                (#[trigger] out@[a]) <= (#[trigger] out@[b]) by {
                if b < base.len() {
                } else if a < base.len() {
                    assert(out@[b] == val as u32);
                    assert(out@[a] < val as u32);
                } else {
                    assert(out@[a] == val as u32 && out@[b] == val as u32);
                }
            }
            assert forall|a: int| 0 <= a < out@.len() implies (#[trigger] out@[a]) < val + 1 by {
                if a >= base.len() {
                    assert(out@[a] == val as u32);
                }
            }
        }
    }
    proof {
        assert(count@.take(m as int) =~= count@);
    }
    let total = out.len();
    if total == n {
        *arr = out;
    }
}

/// The total of a sequence of tallies.
spec fn count_total(s: Seq<usize>) -> int
    decreases s.len(),
{
    if s.len() == 0 {
        0
    } else {
        count_total(s.drop_last()) + s.last()
    }
}

/// Updating one tally shifts the total by the difference.
proof fn lemma_count_total_update(s: Seq<usize>, d: int, x: usize)
    requires
        0 <= d < s.len(),
    ensures
        count_total(s.update(d, x)) == count_total(s) - s[d] + x,
    decreases s.len(),
{
    if d == s.len() - 1 {
        assert(s.update(d, x).drop_last() =~= s.drop_last());
    } else {
        lemma_count_total_update(s.drop_last(), d, x);
        assert(s.update(d, x).drop_last() =~= s.drop_last().update(d, x));
    }
}

/// Extending a prefix of tallies by one entry adds that tally.
proof fn lemma_count_total_take_step(s: Seq<usize>, d: int)
    requires
        0 <= d < s.len(),
    ensures
        count_total(s.take(d + 1)) == count_total(s.take(d)) + s[d],
{
    assert(s.take(d + 1).drop_last() =~= s.take(d));
}

/// A prefix of tallies totals at most the whole.
proof fn lemma_count_total_take_le(s: Seq<usize>, d: int)
    requires
        0 <= d <= s.len(),
    ensures
        count_total(s.take(d)) <= count_total(s),
    decreases s.len() - d,
{
    if d == s.len() {
        assert(s.take(d) =~= s);
    } else {
        lemma_count_total_take_step(s, d);
        lemma_count_total_take_le(s, d + 1);
    }
}

/// A fresh vector of `n` zero tallies.
fn vec_of_zeros(n: usize) -> (r: Vec<usize>)
    ensures
        r@.len() == n,
        forall|d: int| 0 <= d < n ==> (#[trigger] r@[d]) == 0,
        count_total(r@) == 0,
{
    let mut r: Vec<usize> = Vec::new();
    for i in 0..n
        invariant
            r@.len() == i,
            forall|d: int| 0 <= d < i ==> (#[trigger] r@[d]) == 0,
            count_total(r@) == 0,
    {
        let ghost prev = r@;
        r.push(0);
        proof {
            assert(r@.drop_last() =~= prev);
        }
    }
    r
}

/// Counting sort for signed values: tallies each value by its offset
/// from the minimum, then writes the values back in ascending order.
pub fn counting_sort_i32(arr: &mut Vec<i32>)
    requires
        (u32::MAX as usize) < usize::MAX,
    ensures
        final(arr)@.len() == old(arr)@.len(),
        sorted_i32(final(arr)@),
{
    let n = arr.len();
    if n <= 1 {
        return;
    }
    let mut min: i32 = arr[0];
    let mut max: i32 = arr[0];
    for i in 1..n
        invariant
            n == arr@.len(),
            arr@ == old(arr)@,
            min <= max,
            forall|k: int| 0 <= k < i ==> min <= (#[trigger] arr@[k]) <= max,
    {
        if arr[i] < min {
            min = arr[i];
        }
        if arr[i] > max {
            max = arr[i];
        }
    }
    let range = (max as i64 - min as i64 + 1) as usize;
    let mut count: Vec<usize> = vec_of_zeros(range);
    for i in 0..n
        invariant
            n == arr@.len(),
            arr@ == old(arr)@,
            min <= max,
            count@.len() == range == max as i64 - min as i64 + 1,
            count_total(count@) == i,
            forall|k: int| 0 <= k < n ==> min <= (#[trigger] arr@[k]) <= max,
            forall|d: int| 0 <= d < count@.len() ==> (#[trigger] count@[d]) <= i,
    {
        let v = (arr[i] as i64 - min as i64) as usize;
        let c = count[v];
        proof {
            lemma_count_total_update(count@, v as int, (c + 1) as usize);
        }
        count.set(v, c + 1);
    }
    let mut out: Vec<i32> = Vec::new();
    let m = count.len();
    for off in 0..m
        invariant
            count@.len() == m,
            min <= max,
            m == max as i64 - min as i64 + 1,
            out@.len() == count_total(count@.take(off as int)),
            forall|a: int, b: int|
                0 <= a <= b < out@.len() ==> (#[trigger] out@[a]) <= (#[trigger] out@[b]),
            forall|a: int| 0 <= a < out@.len() ==> ((#[trigger] out@[a]) as i64) < (min as i64) + off,
    {
        let val = (min as i64 + off as i64) as i32;
        let cnt = count[off];
        let ghost base = out@;
        proof {
            lemma_count_total_take_step(count@, off as int);
            lemma_count_total_take_le(count@, off + 1);
        }
        for c in 0..cnt
            invariant
                out@ == base + Seq::new(c as nat, |x: int| val),
                min <= max,
                m == max as i64 - min as i64 + 1,
                off < m,
                val == min as i64 + off as i64,
        {
            out.push(val);
            proof {
                assert(out@ =~= base + Seq::new((c + 1) as nat, |x: int| val));
            }
        }
        proof {
            assert(out@ == base + Seq::new(cnt as nat, |x: int| val));
            assert(out@.len() == count_total(count@.take(off + 1)));
            assert forall|a: int, b: int| 0 <= a <= b < out@.len() implies
                (#[trigger] out@[a]) <= (#[trigger] out@[b]) by {
                if b < base.len() {
                } else if a < base.len() {
                    assert(out@[b] == val);
                    assert(((out@[a]) as i64) < (min as i64) + off);
                } else {
                    assert(out@[a] == val && out@[b] == val);
                }
            }
            assert forall|a: int| 0 <= a < out@.len() implies
                ((#[trigger] out@[a]) as i64) < (min as i64) + (off + 1) by {
                if a >= base.len() {
                    assert(out@[a] == val);
                }
            }
        }
    }
    proof {
        assert(count@.take(m as int) =~= count@);
    }
    let total = out.len();
    if total == n {
        *arr = out;
    }
}

/// The total number of values held across a sequence of buckets.
spec fn buckets_total(bs: Seq<Vec<u32>>) -> int
    decreases bs.len(),
{
    if bs.len() == 0 {
        0
    } else {
        bs[0]@.len() + buckets_total(bs.drop_first())
    }
}

/// Replacing one bucket shifts the total by the difference in lengths.
proof fn lemma_buckets_total_update(bs: Seq<Vec<u32>>, d: int, nb: Vec<u32>)
    requires
        0 <= d < bs.len(),
    ensures
        buckets_total(bs.update(d, nb)) == buckets_total(bs) - bs[d]@.len() + nb@.len(),
    decreases bs.len(),
{
    if d == 0 {
        assert(bs.update(0, nb).drop_first() =~= bs.drop_first());
    } else {
        lemma_buckets_total_update(bs.drop_first(), d - 1, nb);
        assert(bs.update(d, nb).drop_first() =~= bs.drop_first().update(d - 1, nb));
    }
}

/// One pass of radix sort: distributes values into ten buckets by the
/// decimal digit selected by `exp`, then reads the buckets back in
/// order. Stable within each digit.
fn digit_pass(arr: &mut Vec<u32>, exp: u64)
    requires
        exp >= 1,
    ensures
        final(arr)@.len() == old(arr)@.len(),
{
    let n = arr.len();
    let mut buckets: Vec<Vec<u32>> = Vec::new();
    for d in 0..10usize
        invariant
            buckets@.len() == d,
            buckets_total(buckets@) == 0,
            forall|k: int| 0 <= k < d ==> (#[trigger] buckets@[k])@.len() == 0,
    {
        let ghost prev = buckets@;
        buckets.push(Vec::new());
        proof {
            lemma_buckets_total_push(prev, buckets@.last());
        }
    }
    for i in 0..n
        invariant
            exp >= 1,
            n == arr@.len(),
            arr@ == old(arr)@,
            buckets@.len() == 10,
            buckets_total(buckets@) == i,
    {
        let val = arr[i];
        let digit = (((val as u64) / exp) % 10) as usize;
        let ghost s0 = buckets@;
        let mut b = buckets.remove(digit);
        b.push(val);
        buckets.insert(digit, b);
        proof {
            assert(buckets@ =~= s0.update(digit as int, buckets@[digit as int]));
            lemma_buckets_total_update(s0, digit as int, buckets@[digit as int]);
        }
    }
    let mut out: Vec<u32> = Vec::new();
    while buckets.len() > 0
        invariant
            out@.len() + buckets_total(buckets@) == n,
        decreases buckets@.len(),
    {
        let ghost s0 = buckets@;
        let mut b = buckets.remove(0);
        out.append(&mut b);
        proof {
            assert(buckets@ =~= s0.drop_first());
        }
    }
    let total = out.len();
    if total == n {
        *arr = out;
    }
}

/// Appending a bucket adds its length to the total.
proof fn lemma_buckets_total_push(bs: Seq<Vec<u32>>, nb: Vec<u32>)
    ensures
        buckets_total(bs.push(nb)) == buckets_total(bs) + nb@.len(),
    decreases bs.len(),
{
    let u = bs.push(nb);
    assert(u.len() == bs.len() + 1);
    assert(buckets_total(u) == u[0]@.len() + buckets_total(u.drop_first()));
    if bs.len() == 0 {
        assert(u[0] == nb);
        assert(u.drop_first() =~= Seq::<Vec<u32>>::empty());
        assert(buckets_total(u.drop_first()) == 0);
    } else {
        lemma_buckets_total_push(bs.drop_first(), nb);
        assert(u[0] == bs[0]);
        assert(u.drop_first() =~= bs.drop_first().push(nb));
        assert(buckets_total(u.drop_first()) == buckets_total(bs.drop_first()) + nb@.len());
        assert(buckets_total(bs) == bs[0]@.len() + buckets_total(bs.drop_first()));
    }
}

/// Radix sort for unsigned values: one stable counting pass per decimal
/// digit, least significant first.
pub fn radix_sort(arr: &mut Vec<u32>)
    ensures
        final(arr)@.len() == old(arr)@.len(),
{
    let n = arr.len();
    if n <= 1 {
        return;
    }
    let mut max: u32 = arr[0];
    for i in 1..n
        invariant
            n == arr@.len(),
            arr@ == old(arr)@,
    {
        if arr[i] > max {
            max = arr[i];
        }
    }
    let mut exp: u64 = 1;
    for pass in 0..20u32
        invariant
            exp >= 1,
            arr@.len() == old(arr)@.len(),
    {
        if (max as u64) / exp == 0 {
            break;
        }
        digit_pass(arr, exp);
        if exp <= u64::MAX / 10 {
            exp = exp * 10;
        } else {
            break;
        }
    }
}

/// Reports whether the vector is in ascending order.
pub fn is_sorted<T: Ord>(arr: &Vec<T>) -> (r: bool)
    ensures
        ord_is_total::<T>() ==> r == sorted(arr@),
{
    let n = arr.len();
    if n <= 1 {
        proof {
            if ord_is_total::<T>() {
                lemma_adjacent_sorted(arr@);
            }
        }
        return true;
    }
    let hi = n - 1;
    for q in 0..hi
        invariant
            hi == n - 1,
            n == arr@.len(),
            ord_is_total::<T>() ==> forall|p: int| 0 <= p < q ==> #[trigger] le_spec(arr@[p], arr@[p + 1]),
    {
        let gt = arr[q] > arr[q + 1];
        if gt {
            proof {
                if ord_is_total::<T>() {
                    assert(!le_spec(arr@[q as int], arr@[q + 1]));
                }
            }
            return false;
        }
    }
    proof {
        if ord_is_total::<T>() {
            lemma_adjacent_sorted(arr@);
        }
    }
    true
}

} // verus!
