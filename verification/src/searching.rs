//! Binary search, two-pointer, and sliding-window routines.

use vstd::prelude::*;
use vstd::string::StrSliceExecFns;
use crate::keys::cmp_is_total;
use crate::keys::eq_is_exact;
use crate::keys::le_spec;
use crate::keys::lemma_props_i32;
use crate::keys::ord_is_total;
use crate::sorting::insertion_sort;
use crate::sorting::sorted;
use crate::sorting::sorted_i32;

verus! {

/// Binary search over an ascending vector. When the element comparison
/// is specified and total and the input is sorted, the result is an
/// index holding the target, or `None` exactly when the target is
/// absent.
pub fn binary_search<T: Ord>(arr: &Vec<T>, target: &T) -> (r: Option<usize>)
    ensures
        r matches Some(i) ==> i < arr@.len(),
        cmp_is_total::<T>() && sorted(arr@) ==> match r {
            Some(i) => arr@[i as int] == *target,
            None => forall|k: int| 0 <= k < arr@.len() ==> arr@[k] != *target,
        },
{
    let ghost cond = cmp_is_total::<T>() && sorted(arr@);
    if arr.len() == 0 {
        return None;
    }
    let mut left: usize = 0;
    let mut right: usize = arr.len() - 1;
    while left <= right
        invariant
            cond == (cmp_is_total::<T>() && sorted(arr@)),
            arr@.len() <= usize::MAX,
            right < arr@.len(),
            cond ==> forall|k: int| 0 <= k < left ==> arr@[k] != *target,
            cond ==> forall|k: int| right < k < arr@.len() ==> arr@[k] != *target,
        decreases right + 1 - left,
    {
        let mid = left + (right - left) / 2;
        let ordering = arr[mid].cmp(target);
        match ordering {
            core::cmp::Ordering::Equal => {
                proof {
                    if cond {
                        assert(le_spec(arr@[mid as int], *target)
                            && le_spec(*target, arr@[mid as int]));
                    }
                }
                return Some(mid);
            },
            core::cmp::Ordering::Less => {
                proof {
                    if cond {
                        assert(!le_spec(*target, arr@[mid as int]));
                        assert forall|k: int| 0 <= k < mid + 1 implies arr@[k] != *target by {
                            assert(le_spec(arr@[k], arr@[mid as int]));
                            if arr@[k] == *target {
                                assert(le_spec(*target, arr@[mid as int]));
                            }
                        }
                    }
                }
                left = mid + 1;
            },
            core::cmp::Ordering::Greater => {
                proof {
                    if cond {
                        assert(!le_spec(arr@[mid as int], *target));
                        assert forall|k: int| mid <= k < arr@.len() implies
                            arr@[k] != *target by {
                            assert(le_spec(arr@[mid as int], arr@[k]));
                            if arr@[k] == *target {
                                assert(le_spec(arr@[mid as int], *target));
                            }
                        }
                    }
                }
                if mid == 0 {
                    return None;
                }
                right = mid - 1;
            },
        }
    }
    None
}

/// The first position whose element is not below the target: all
/// earlier elements are strictly smaller, all from the result on are at
/// least the target (when the order is specified, total, and the input
/// is sorted).
pub fn lower_bound<T: Ord>(arr: &Vec<T>, target: &T) -> (r: usize)
    ensures
        r <= arr@.len(),
        ord_is_total::<T>() && sorted(arr@) ==> ({
            &&& forall|k: int| 0 <= k < r ==> !le_spec(*target, #[trigger] arr@[k])
            &&& forall|k: int| r <= k < arr@.len() ==> le_spec(*target, #[trigger] arr@[k])
        }),
{
    let ghost cond = ord_is_total::<T>() && sorted(arr@);
    let mut left: usize = 0;
    let mut right: usize = arr.len();
    while left < right
        invariant
            cond == (ord_is_total::<T>() && sorted(arr@)),
            left <= right <= arr@.len(),
            cond ==> forall|k: int| 0 <= k < left ==> !le_spec(*target, #[trigger] arr@[k]),
            cond ==> forall|k: int| right <= k < arr@.len() ==> le_spec(
                *target, #[trigger] arr@[k]),
        decreases right - left,
    {
        let mid = left + (right - left) / 2;
        let lt = arr[mid] < *target;
        if lt {
            proof {
                if cond {
                    assert(!le_spec(*target, arr@[mid as int]));
                    assert forall|k: int| 0 <= k < mid + 1 implies
                        !le_spec(*target, #[trigger] arr@[k]) by {
                        assert(le_spec(arr@[k], arr@[mid as int]));
                    }
                }
            }
            left = mid + 1;
        } else {
            proof {
                if cond {
                    assert(le_spec(*target, arr@[mid as int]));
                    assert forall|k: int| mid <= k < arr@.len() implies
                        le_spec(*target, #[trigger] arr@[k]) by {
                        assert(le_spec(arr@[mid as int], arr@[k]));
                    }
                }
            }
            right = mid;
        }
    }
    left
}

/// The first position whose element is above the target: all earlier
/// elements are at most the target, all from the result on are strictly
/// greater (when the order is specified, total, and the input is
/// sorted).
pub fn upper_bound<T: Ord>(arr: &Vec<T>, target: &T) -> (r: usize)
    ensures
        r <= arr@.len(),
        ord_is_total::<T>() && sorted(arr@) ==> ({
            &&& forall|k: int| 0 <= k < r ==> le_spec(#[trigger] arr@[k], *target)
            &&& forall|k: int| r <= k < arr@.len() ==> !le_spec(#[trigger] arr@[k], *target)
        }),
{
    let ghost cond = ord_is_total::<T>() && sorted(arr@);
    let mut left: usize = 0;
    let mut right: usize = arr.len();
    while left < right
        invariant
            cond == (ord_is_total::<T>() && sorted(arr@)),
            left <= right <= arr@.len(),
            cond ==> forall|k: int| 0 <= k < left ==> le_spec(#[trigger] arr@[k], *target),
            cond ==> forall|k: int| right <= k < arr@.len() ==> !le_spec(
                #[trigger] arr@[k], *target),
        decreases right - left,
    {
        let mid = left + (right - left) / 2;
        let le = arr[mid] <= *target;
        if le {
            proof {
                if cond {
                    assert forall|k: int| 0 <= k < mid + 1 implies
                        le_spec(#[trigger] arr@[k], *target) by {
                        assert(le_spec(arr@[k], arr@[mid as int]));
                    }
                }
            }
            left = mid + 1;
        } else {
            proof {
                if cond {
                    assert(!le_spec(arr@[mid as int], *target));
                    assert forall|k: int| mid <= k < arr@.len() implies
                        !le_spec(#[trigger] arr@[k], *target) by {
                        assert(le_spec(arr@[mid as int], arr@[k]));
                    }
                }
            }
            right = mid;
        }
    }
    left
}

/// The first occurrence of the target in a sorted vector.
pub fn binary_search_first<T: Ord>(arr: &Vec<T>, target: &T) -> (r: Option<usize>)
    ensures
        r matches Some(i) ==> i < arr@.len(),
        ord_is_total::<T>() && eq_is_exact::<T>() && sorted(arr@) ==> match r {
            Some(i) => arr@[i as int] == *target && forall|k: int|
                0 <= k < i ==> arr@[k] != *target,
            None => forall|k: int| 0 <= k < arr@.len() ==> arr@[k] != *target,
        },
{
    let ghost cond = ord_is_total::<T>() && eq_is_exact::<T>() && sorted(arr@);
    let idx = lower_bound(arr, target);
    proof {
        if cond {
            assert forall|k: int| 0 <= k < idx implies arr@[k] != *target by {
                if arr@[k] == *target {
                    assert(!le_spec(*target, arr@[k]));
                    assert(le_spec(*target, *target) || le_spec(*target, *target));
                }
            }
        }
    }
    if idx < arr.len() {
        let eq = arr[idx] == *target;
        if eq {
            Some(idx)
        } else {
            proof {
                if cond {
                    assert(arr@[idx as int] != *target);
                    assert forall|k: int| idx <= k < arr@.len() implies arr@[k] != *target by {
                        if arr@[k] == *target {
                            assert(le_spec(*target, arr@[idx as int]));
                            assert(le_spec(arr@[idx as int], arr@[k]));
                        }
                    }
                }
            }
            None
        }
    } else {
        None
    }
}

/// The last occurrence of the target in a sorted vector.
pub fn binary_search_last<T: Ord>(arr: &Vec<T>, target: &T) -> (r: Option<usize>)
    ensures
        r matches Some(i) ==> i < arr@.len(),
        ord_is_total::<T>() && eq_is_exact::<T>() && sorted(arr@) ==> match r {
            Some(i) => arr@[i as int] == *target && forall|k: int|
                i < k < arr@.len() ==> arr@[k] != *target,
            None => forall|k: int| 0 <= k < arr@.len() ==> arr@[k] != *target,
        },
{
    let ghost cond = ord_is_total::<T>() && eq_is_exact::<T>() && sorted(arr@);
    let idx = upper_bound(arr, target);
    proof {
        if cond {
            assert forall|k: int| idx <= k < arr@.len() implies arr@[k] != *target by {
                if arr@[k] == *target {
                    assert(!le_spec(arr@[k], *target));
                    assert(le_spec(*target, *target) || le_spec(*target, *target));
                }
            }
        }
    }
    if idx > 0 {
        let eq = arr[idx - 1] == *target;
        if eq {
            Some(idx - 1)
        } else {
            proof {
                if cond {
                    assert(arr@[idx - 1] != *target);
                    assert forall|k: int| 0 <= k < idx implies arr@[k] != *target by {
                        if arr@[k] == *target {
                            assert(le_spec(arr@[k], arr@[idx - 1]));
                            assert(le_spec(arr@[idx - 1], *target));
                            assert(le_spec(*target, *target) || le_spec(*target, *target));
                        }
                    }
                }
            }
            None
        }
    } else {
        None
    }
}

/// How many entries of a sorted vector hold the target: the gap between
/// the two binary-search bounds.
pub fn count_occurrences<T: Ord>(arr: &Vec<T>, target: &T) -> (r: usize)
    ensures
        r <= arr@.len(),
        ord_is_total::<T>() && sorted(arr@) ==> ({
            &&& r == 0 ==> forall|k: int| 0 <= k < arr@.len() ==> arr@[k] != *target
            &&& r > 0 ==> exists|k: int| 0 <= k < arr@.len() && (#[trigger] arr@[k]) == *target
        }),
{
    let ghost cond = ord_is_total::<T>() && sorted(arr@);
    let lower = lower_bound(arr, target);
    let upper = upper_bound(arr, target);
    proof {
        if cond {
            if upper < lower {
                assert(le_spec(*target, arr@[lower - 1]));
                assert(le_spec(arr@[lower - 1], *target));
                assert(!le_spec(*target, arr@[lower - 1]));
            }
            if upper > lower {
                assert(le_spec(*target, arr@[lower as int]));
                assert(le_spec(arr@[lower as int], *target));
                assert(arr@[lower as int] == *target);
            }
            if upper == lower {
                assert forall|k: int| 0 <= k < arr@.len() implies arr@[k] != *target by {
                    if arr@[k] == *target {
                        if k < lower {
                            assert(!le_spec(*target, arr@[k]));
                            assert(le_spec(*target, *target) || le_spec(*target, *target));
                        } else {
                            assert(!le_spec(arr@[k], *target));
                            assert(le_spec(*target, *target) || le_spec(*target, *target));
                        }
                    }
                }
            }
        }
    }
    if upper >= lower {
        upper - lower
    } else {
        0
    }
}

/// In an ascending vector, finds two positions whose values add to the
/// target.
pub fn two_sum_sorted(arr: &Vec<i32>, target: i32) -> (r: Option<(usize, usize)>)
    requires
        forall|i: int, j: int|
            0 <= i < j < arr@.len() ==> i32::MIN <= (#[trigger] arr@[i]) + (#[trigger] arr@[j])
                <= i32::MAX,
    ensures
        r matches Some(p) ==> p.0 < p.1 < arr@.len() && arr@[p.0 as int] + arr@[p.1 as int]
            == target,
        sorted_i32(arr@) && r is None ==> forall|i: int, j: int|
            0 <= i < j < arr@.len() ==> (#[trigger] arr@[i]) + (#[trigger] arr@[j]) != target,
{
    if arr.len() < 2 {
        return None;
    }
    let ghost cond = sorted_i32(arr@);
    let mut left: usize = 0;
    let mut right: usize = arr.len() - 1;
    while left < right
        invariant
            cond == sorted_i32(arr@),
            right < arr@.len(),
            forall|i: int, j: int|
                0 <= i < j < arr@.len() ==> i32::MIN <= (#[trigger] arr@[i])
                    + (#[trigger] arr@[j]) <= i32::MAX,
            cond ==> forall|i: int, j: int|
                0 <= i < j < arr@.len() && (i < left || j > right) ==> (#[trigger] arr@[i])
                    + (#[trigger] arr@[j]) != target,
        decreases right - left,
    {
        let sum = arr[left] + arr[right];
        if sum == target {
            return Some((left, right));
        } else if sum < target {
            proof {
                if cond {
                    assert forall|i: int, j: int|
                        0 <= i < j < arr@.len() && (i < left + 1 || j > right) implies
                        (#[trigger] arr@[i]) + (#[trigger] arr@[j]) != target by {
                        if i == left && j <= right {
                            assert(arr@[j] <= arr@[right as int]);
                        }
                    }
                }
            }
            left = left + 1;
        } else {
            proof {
                if cond {
                    assert forall|i: int, j: int|
                        0 <= i < j < arr@.len() && (i < left || j > right - 1) implies
                        (#[trigger] arr@[i]) + (#[trigger] arr@[j]) != target by {
                        if j == right && i >= left {
                            assert(arr@[left as int] <= arr@[i]);
                        }
                    }
                }
            }
            right = right - 1;
        }
    }
    None
}

/// Sorts the input and collects ascending triples that add to the
/// target, skipping duplicate start values.
pub fn three_sum(arr: &mut Vec<i32>, target: i32) -> (r: Vec<Vec<i32>>)
    requires
        forall|k: int| 0 <= k < old(arr)@.len() ==> -0x10000000 < (#[trigger] old(arr)@[k])
            < 0x10000000,
    ensures
        final(arr)@.to_multiset() == old(arr)@.to_multiset(),
        forall|t: int|
            0 <= t < r@.len() ==> (#[trigger] r@[t])@.len() == 3 && r@[t]@[0] + r@[t]@[1]
                + r@[t]@[2] == target,
{
    let mut result: Vec<Vec<i32>> = Vec::new();
    if arr.len() < 3 {
        return result;
    }
    let ghost orig = arr@;
    insertion_sort(arr);
    proof {
        lemma_props_i32();
        assert forall|k: int| 0 <= k < arr@.len() implies -0x10000000 < (#[trigger] arr@[k])
            < 0x10000000 by {
            assert(arr@.to_multiset().count(arr@[k]) > 0) by {
                broadcast use vstd::seq_lib::group_to_multiset_ensures;
            }
            assert(orig.contains(arr@[k])) by {
                broadcast use vstd::seq_lib::group_to_multiset_ensures;
            }
        }
    }
    let n = arr.len();
    let outer_end = n - 2;
    for i in 0..outer_end
        invariant
            outer_end == n - 2,
            n == arr@.len(),
            arr@.to_multiset() == orig.to_multiset(),
            forall|k: int| 0 <= k < arr@.len() ==> -0x10000000 < (#[trigger] arr@[k])
                < 0x10000000,
            forall|t: int|
                0 <= t < result@.len() ==> (#[trigger] result@[t])@.len() == 3
                    && result@[t]@[0] + result@[t]@[1] + result@[t]@[2] == target,
    {
        let skip_i = i > 0 && arr[i] == arr[i - 1];
        if !skip_i {
            let mut left = i + 1;
            let mut right = n - 1;
            while left < right
                invariant
                    n == arr@.len(),
                    i < left <= n,
                    right < n,
                    forall|k: int| 0 <= k < arr@.len() ==> -0x10000000 < (#[trigger] arr@[k])
                        < 0x10000000,
                    forall|t: int|
                        0 <= t < result@.len() ==> (#[trigger] result@[t])@.len() == 3
                            && result@[t]@[0] + result@[t]@[1] + result@[t]@[2] == target,
                decreases n + right - left,
            {
                let sum = arr[i] + arr[left] + arr[right];
                if sum == target {
                    let mut triple: Vec<i32> = Vec::new();
                    triple.push(arr[i]);
                    triple.push(arr[left]);
                    triple.push(arr[right]);
                    result.push(triple);
                    let ghost l0 = left;
                    let ghost r0 = right;
                    while left < right && arr[left] == arr[left + 1]
                        invariant
                            n == arr@.len(),
                            l0 <= left,
                            right == r0,
                            i < left <= right,
                            right < n,
                        decreases right - left,
                    {
                        left = left + 1;
                    }
                    while left < right && arr[right] == arr[right - 1]
                        invariant
                            n == arr@.len(),
                            l0 <= left,
                            right <= r0,
                            i < left <= right,
                            right < n,
                        decreases right,
                    {
                        right = right - 1;
                    }
                    left = left + 1;
                    if right > 0 {
                        right = right - 1;
                    }
                } else if sum < target {
                    left = left + 1;
                } else {
                    right = right - 1;
                }
            }
        }
    }
    result
}

/// Compacts a sorted vector in place so that its first `r` positions
/// hold the distinct values; rearranges only by exchanges.
pub fn remove_duplicates<T: Ord>(arr: &mut Vec<T>) -> (r: usize)
    ensures
        final(arr)@.len() == old(arr)@.len(),
        final(arr)@.to_multiset() == old(arr)@.to_multiset(),
        old(arr)@.len() == 0 ==> r == 0,
        old(arr)@.len() > 0 ==> 1 <= r <= old(arr)@.len(),
{
    if arr.len() == 0 {
        return 0;
    }
    let ghost orig = arr@;
    let mut write: usize = 1;
    let n = arr.len();
    for read in 1..n
        invariant
            n == arr@.len(),
            n == old(arr)@.len(),
            orig == old(arr)@,
            arr@.to_multiset() == orig.to_multiset(),
            1 <= write <= read,
    {
        let ne = arr[read] != arr[write - 1];
        if ne {
            crate::sorting::exchange(arr, write, read);
            write = write + 1;
        }
    }
    write
}

/// The largest rectangle bounded by two of the given heights and the
/// distance between them.
pub fn container_with_most_water(heights: &Vec<i32>) -> (r: i32)
    requires
        heights@.len() <= 0x10000,
        forall|k: int| 0 <= k < heights@.len() ==> 0 <= (#[trigger] heights@[k]) <= 0x7fff,
    ensures
        r >= 0,
{
    if heights.len() < 2 {
        return 0;
    }
    let mut left: usize = 0;
    let mut right: usize = heights.len() - 1;
    let mut max_area: i32 = 0;
    while left < right
        invariant
            right < heights@.len(),
            heights@.len() <= 0x10000,
            forall|k: int| 0 <= k < heights@.len() ==> 0 <= (#[trigger] heights@[k]) <= 0x7fff,
            max_area >= 0,
        decreases right - left,
    {
        let width = (right - left) as i32;
        let height = if heights[left] < heights[right] {
            heights[left]
        } else {
            heights[right]
        };
        proof {
            assert(0 <= width * height <= 0xffff * 0x7fff) by (nonlinear_arith)
                requires
                    0 <= width <= 0xffff,
                    0 <= height <= 0x7fff,
            {}
        }
        let area = width * height;
        if area > max_area {
            max_area = area;
        }
        if heights[left] < heights[right] {
            left = left + 1;
        } else {
            right = right - 1;
        }
    }
    max_area
}

/// The water trapped between the given heights, two-pointer form.
pub fn trap_water(heights: &Vec<i32>) -> (r: i32)
    requires
        heights@.len() <= 0x8000,
        forall|k: int| 0 <= k < heights@.len() ==> 0 <= (#[trigger] heights@[k]) <= 0x10000,
    ensures
        r >= 0,
{
    if heights.len() < 3 {
        return 0;
    }
    let mut left: usize = 0;
    let mut right: usize = heights.len() - 1;
    let mut left_max: i32 = 0;
    let mut right_max: i32 = 0;
    let mut water: i32 = 0;
    let ghost n = heights@.len() as int;
    while left < right
        invariant
            n == heights@.len() as int,
            right < heights@.len(),
            heights@.len() <= 0x8000,
            forall|k: int| 0 <= k < heights@.len() ==> 0 <= (#[trigger] heights@[k]) <= 0x10000,
            0 <= left_max <= 0x10000,
            0 <= right_max <= 0x10000,
            0 <= water,
            water <= 0x10000 * (left + (n - 1 - right)),
        decreases right - left,
    {
        if heights[left] < heights[right] {
            if heights[left] >= left_max {
                left_max = heights[left];
            } else {
                water = water + (left_max - heights[left]);
            }
            left = left + 1;
        } else {
            if heights[right] >= right_max {
                right_max = heights[right];
            } else {
                water = water + (right_max - heights[right]);
            }
            right = right - 1;
        }
    }
    water
}

/// The greatest sum of any window of `k` consecutive elements.
pub fn max_sum_subarray(arr: &Vec<i32>, k: usize) -> (r: Option<i32>)
    requires
        arr@.len() <= 0x4000,
        forall|j: int| 0 <= j < arr@.len() ==> -0x10000 <= (#[trigger] arr@[j]) <= 0x10000,
    ensures
        r is Some <==> 1 <= k <= arr@.len(),
{
    if k == 0 || arr.len() < k {
        return None;
    }
    let mut max_sum = window_sum_at(arr, 0, k);
    let n = arr.len();
    let end = n - k;
    for start in 0..end
        invariant
            end == n - k,
            1 <= k <= n == arr@.len(),
            arr@.len() <= 0x4000,
            forall|j: int| 0 <= j < arr@.len() ==> -0x10000 <= (#[trigger] arr@[j]) <= 0x10000,
    {
        let ws = window_sum_at(arr, start + 1, k);
        if ws > max_sum {
            max_sum = ws;
        }
    }
    Some(max_sum)
}

/// The sum of the `k` elements starting at `start`.
fn window_sum_at(arr: &Vec<i32>, start: usize, k: usize) -> (r: i32)
    requires
        start + k <= arr@.len(),
        arr@.len() <= 0x4000,
        forall|j: int| 0 <= j < arr@.len() ==> -0x10000 <= (#[trigger] arr@[j]) <= 0x10000,
{
    let mut sum: i32 = 0;
    let stop = start + k;
    for i in start..stop
        invariant
            stop == start + k,
            start + k <= arr@.len() <= 0x4000,
            forall|j: int| 0 <= j < arr@.len() ==> -0x10000 <= (#[trigger] arr@[j]) <= 0x10000,
            -0x10000 * (i - start) <= sum <= 0x10000 * (i - start),
    {
        sum = sum + arr[i];
    }
    sum
}

/// The length of the longest run of characters without a repeat.
pub fn longest_substring_without_repeating(s: &str) -> (r: usize)
    ensures
        r <= s@.len(),
{
    let chars = chars_vec(s);
    let n = chars.len();
    let mut max_len: usize = 0;
    let mut start: usize = 0;
    for i in 0..n
        invariant
            n == chars@.len() == s@.len(),
            start <= i,
            max_len <= n,
    {
        let mut scan: usize = start;
        while scan < i && chars[scan] != chars[i]
            invariant
                start <= scan <= i < n == chars@.len(),
            decreases i - scan,
        {
            scan = scan + 1;
        }
        if scan < i {
            start = scan + 1;
        }
        let window = i + 1 - start;
        if window > max_len {
            max_len = window;
        }
    }
    max_len
}

/// The characters of a string, in order, as a vector.
pub fn chars_vec(s: &str) -> (r: Vec<char>)
    ensures
        r@ == s@,
{
    let n = s.unicode_len();
    let mut out: Vec<char> = Vec::new();
    for i in 0..n
        invariant
            n == s@.len(),
            out@ == s@.take(i as int),
    {
        out.push(s.get_char(i));
        proof {
            assert(out@ =~= s@.take(i + 1));
        }
    }
    proof {
        assert(s@.take(n as int) =~= s@);
    }
    out
}

/// The shortest window of `s` containing every character of `t` with
/// multiplicity, if one exists.
pub fn min_window_substring(s: &str, t: &str) -> (r: Option<String>)
{
    let t_len = t.unicode_len();
    let s_len = s.unicode_len();
    if t_len == 0 || s_len < t_len {
        return None;
    }
    let s_chars = chars_vec(s);
    let t_chars = chars_vec(t);
    let n = s_chars.len();
    let mut best_start: usize = 0;
    let mut best_len: usize = 0;
    let mut found = false;
    for start in 0..n
        invariant
            n == s_chars@.len() == s@.len(),
            t_chars@.len() == t@.len(),
            t_chars@.len() >= 1,
            found ==> best_start + best_len <= n && best_len >= 1,
    {
        let mut end = start + if t_chars.len() < n - start {
            t_chars.len()
        } else {
            n - start
        };
        while end <= n
            invariant
                start < n == s_chars@.len() == s@.len(),
                t_chars@.len() == t@.len(),
                start < end,
                found ==> best_start + best_len <= n && best_len >= 1,
            decreases n - end,
        {
            if found && end - start >= best_len {
                break;
            }
            if window_covers(&s_chars, start, end, &t_chars) {
                best_start = start;
                best_len = end - start;
                found = true;
                break;
            }
            if end == n {
                break;
            }
            end = end + 1;
        }
    }
    if found {
        let sub = s.substring_char(best_start, best_start + best_len);
        Some(sub.to_owned())
    } else {
        None
    }
}

/// Whether `s[start..end)` contains every character of `t` with at
/// least `t`'s multiplicity.
fn window_covers(s_chars: &Vec<char>, start: usize, end: usize, t_chars: &Vec<char>) -> (r: bool)
    requires
        start <= end <= s_chars@.len(),
{
    let m = t_chars.len();
    for ti in 0..m
        invariant
            m == t_chars@.len(),
            start <= end <= s_chars@.len(),
    {
        let c = t_chars[ti];
        let mut needed: usize = 0;
        for tj in 0..m
            invariant
                m == t_chars@.len(),
                needed <= tj,
        {
            if t_chars[tj] == c {
                needed = needed + 1;
            }
        }
        let mut have: usize = 0;
        let mut k = start;
        while k < end
            invariant
                start <= k <= end <= s_chars@.len(),
                have <= k - start,
            decreases end - k,
        {
            if s_chars[k] == c {
                have = have + 1;
            }
            k = k + 1;
        }
        if have < needed {
            return false;
        }
    }
    true
}

/// The length of the longest run of characters with at most `k`
/// distinct values.
pub fn longest_substring_k_distinct(s: &str, k: usize) -> (r: usize)
    ensures
        r <= s@.len(),
{
    if k == 0 {
        return 0;
    }
    let chars = chars_vec(s);
    let n = chars.len();
    let mut max_len: usize = 0;
    for start in 0..n
        invariant
            n == chars@.len() == s@.len(),
            max_len <= n,
    {
        let mut end = start;
        while end < n
            invariant
                start <= end <= n == chars@.len(),
            decreases n - end,
        {
            if distinct_count(&chars, start, end + 1) > k {
                break;
            }
            end = end + 1;
        }
        let window = end - start;
        if window > max_len {
            max_len = window;
        }
    }
    max_len
}

/// How many distinct characters occur in `s[start..end)`.
fn distinct_count(chars: &Vec<char>, start: usize, end: usize) -> (r: usize)
    requires
        start <= end <= chars@.len(),
{
    let mut count: usize = 0;
    let mut k = start;
    while k < end
        invariant
            start <= k <= end <= chars@.len(),
            count <= k - start,
        decreases end - k,
    {
        let mut seen = false;
        let mut j = start;
        while j < k
            invariant
                start <= j <= k < end <= chars@.len(),
            decreases k - j,
        {
            if chars[j] == chars[k] {
                seen = true;
            }
            j = j + 1;
        }
        if !seen {
            count = count + 1;
        }
        k = k + 1;
    }
    count
}

} // verus!
