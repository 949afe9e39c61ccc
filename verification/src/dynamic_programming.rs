//! Classic dynamic-programming routines.

use vstd::prelude::*;
use crate::searching::chars_vec;
use crate::searching::lower_bound;
use vstd::pervasive::VecAdditionalExecFns;

verus! {

/// The Fibonacci numbers.
pub open spec fn fib(n: nat) -> nat
    decreases n,
{
    if n == 0 {
        0
    } else if n == 1 {
        1
    } else {
        fib((n - 1) as nat) + fib((n - 2) as nat)
    }
}

/// `x` held below the largest machine value.
pub open spec fn capped_u64(x: nat) -> u64 {
    if x <= u64::MAX {
        x as u64
    } else {
        u64::MAX
    }
}

/// The `n`th Fibonacci number, saturating at the machine limit.
pub fn fibonacci(n: u64) -> (r: u64)
    ensures
        r == capped_u64(fib(n as nat)),
{
    if n <= 1 {
        return n;
    }
    let mut prev2 = 0u64;
    let mut prev1 = 1u64;
    let mut k = 1u64;
    while k < n
        invariant
            1 <= k <= n,
            prev1 == capped_u64(fib(k as nat)),
            prev2 == capped_u64(fib((k - 1) as nat)),
        decreases n - k,
    {
        let curr = if prev1 > u64::MAX - prev2 {
            u64::MAX
        } else {
            prev1 + prev2
        };
        proof {
            assert(fib((k + 1) as nat) == fib(k as nat) + fib((k - 1) as nat));
        }
        prev2 = prev1;
        prev1 = curr;
        k = k + 1;
    }
    prev1
}

/// The Fibonacci numbers `0 ..= n`, each saturating at the machine
/// limit.
pub fn fibonacci_memo(n: usize) -> (r: Vec<u64>)
    requires
        n < usize::MAX,
    ensures
        r@.len() == n + 1,
        forall|i: int| 0 <= i <= n ==> (#[trigger] r@[i]) == capped_u64(fib(i as nat)),
{
    let mut dp: Vec<u64> = Vec::new();
    dp.push(0);
    if n >= 1 {
        dp.push(1);
        let mut i: usize = 2;
        while i <= n
            invariant
                2 <= i <= n + 1,
                n < usize::MAX,
                dp@.len() == i,
                forall|j: int| 0 <= j < i ==> (#[trigger] dp@[j]) == capped_u64(fib(j as nat)),
            decreases n + 1 - i,
        {
            let a = dp[i - 1];
            let b = dp[i - 2];
            let curr = if a > u64::MAX - b {
                u64::MAX
            } else {
                a + b
            };
            proof {
                assert(fib(i as nat) == fib((i - 1) as nat) + fib((i - 2) as nat));
            }
            dp.push(curr);
            i = i + 1;
        }
    }
    dp
}

/// The length of the longest common subsequence of the two strings.
pub fn longest_common_subsequence(s1: &str, s2: &str) -> (r: usize)
    requires
        s1@.len() < usize::MAX,
        s2@.len() < usize::MAX,
    ensures
        r <= s1@.len() && r <= s2@.len(),
{
    let chars1 = chars_vec(s1);
    let chars2 = chars_vec(s2);
    let m = chars1.len();
    let n = chars2.len();
    if m == 0 || n == 0 {
        return 0;
    }
    let dp = lcs_table(&chars1, &chars2);
    dp[m][n]
}

/// The full LCS table: `dp[i][j]` is at most `min(i, j)`.
fn lcs_table(chars1: &Vec<char>, chars2: &Vec<char>) -> (dp: Vec<Vec<usize>>)
    requires
        chars1@.len() < usize::MAX,
        chars2@.len() < usize::MAX,
    ensures
        dp@.len() == chars1@.len() + 1,
        forall|i: int| 0 <= i <= chars1@.len() ==> (#[trigger] dp@[i])@.len()
            == chars2@.len() + 1,
        forall|i: int, j: int|
            0 <= i <= chars1@.len() && 0 <= j <= chars2@.len() ==> (#[trigger] dp@[i]@[j]) <= i
                && dp@[i]@[j] <= j,
{
    let m = chars1.len();
    let n = chars2.len();
    let mut dp: Vec<Vec<usize>> = Vec::new();
    for i in 0..m + 1
        invariant
            m == chars1@.len() < usize::MAX,
            n == chars2@.len() < usize::MAX,
            dp@.len() == i,
            forall|p: int| 0 <= p < i ==> (#[trigger] dp@[p])@.len() == n + 1,
            forall|p: int, q: int|
                0 <= p < i && 0 <= q <= n ==> (#[trigger] dp@[p]@[q]) == 0,
    {
        let mut row: Vec<usize> = Vec::new();
        for j in 0..n + 1
            invariant
                n < usize::MAX,
                row@.len() == j,
                forall|q: int| 0 <= q < j ==> (#[trigger] row@[q]) == 0,
        {
            row.push(0);
        }
        dp.push(row);
    }
    for i in 1..m + 1
        invariant
            m == chars1@.len() < usize::MAX,
            n == chars2@.len() < usize::MAX,
            1 <= i,
            dp@.len() == m + 1,
            forall|p: int| 0 <= p <= m ==> (#[trigger] dp@[p])@.len() == n + 1,
            forall|p: int, q: int|
                0 <= p <= m && 0 <= q <= n ==> (#[trigger] dp@[p]@[q]) <= p && dp@[p]@[q] <= q,
    {
        let mut row = dp.remove(i);
        let ghost dp_rest = dp@;
        for j in 1..n + 1
            invariant
                m == chars1@.len() < usize::MAX,
                n == chars2@.len() < usize::MAX,
                1 <= i <= m,
                1 <= j,
                dp@ == dp_rest,
                dp@.len() == m,
                row@.len() == n + 1,
                forall|p: int| 0 <= p < i ==> (#[trigger] dp@[p])@.len() == n + 1,
                forall|p: int, q: int|
                    0 <= p < i && 0 <= q <= n ==> (#[trigger] dp@[p]@[q]) <= p
                        && dp@[p]@[q] <= q,
                forall|q: int| 0 <= q <= n ==> (#[trigger] row@[q]) <= i && row@[q] <= q,
        {
            let val = if chars1[i - 1] == chars2[j - 1] {
                dp[i - 1][j - 1] + 1
            } else {
                let a = dp[i - 1][j];
                let b = row[j - 1];
                if a > b {
                    a
                } else {
                    b
                }
            };
            row.set(j, val);
        }
        dp.insert(i, row);
        proof {
            assert forall|p: int, q: int|
                0 <= p <= m && 0 <= q <= n implies (#[trigger] dp@[p]@[q]) <= p
                    && dp@[p]@[q] <= q by {
                if p < i {
                    assert(dp@[p] == dp_rest[p]);
                }
            }
        }
    }
    dp
}

/// One longest common subsequence of the two strings.
pub fn lcs_string(s1: &str, s2: &str) -> (r: String)
    requires
        s1@.len() < usize::MAX,
        s2@.len() < usize::MAX,
    ensures
        r@.len() <= s1@.len(),
{
    let chars1 = chars_vec(s1);
    let chars2 = chars_vec(s2);
    let m = chars1.len();
    let n = chars2.len();
    if m == 0 || n == 0 {
        return crate::strings::empty_string();
    }
    let dp = lcs_table(&chars1, &chars2);
    let mut picked: Vec<char> = Vec::new();
    let mut i = m;
    let mut j = n;
    while i > 0 && j > 0
        invariant
            m == chars1@.len(),
            n == chars2@.len(),
            i <= m,
            j <= n,
            dp@.len() == m + 1,
            forall|p: int| 0 <= p <= m ==> (#[trigger] dp@[p])@.len() == n + 1,
            picked@.len() <= m - i,
        decreases i + j,
    {
        if chars1[i - 1] == chars2[j - 1] {
            picked.push(chars1[i - 1]);
            i = i - 1;
            j = j - 1;
        } else if dp[i - 1][j] > dp[i][j - 1] {
            i = i - 1;
        } else {
            j = j - 1;
        }
    }
    let mut out = crate::strings::empty_string();
    let mut k = picked.len();
    while k > 0
        invariant
            k <= picked@.len() <= m,
            out@.len() == picked@.len() - k,
        decreases k,
    {
        k = k - 1;
        crate::strings::push_char(&mut out, picked[k]);
    }
    out
}

/// The length of the longest strictly increasing subsequence, patience
/// form.
pub fn longest_increasing_subsequence(arr: &Vec<i32>) -> (r: usize)
    ensures
        r <= arr@.len(),
{
    if arr.len() == 0 {
        return 0;
    }
    let mut tails: Vec<i32> = Vec::new();
    let n = arr.len();
    for i in 0..n
        invariant
            n == arr@.len(),
            tails@.len() <= i,
    {
        let num = arr[i];
        let pos = lower_bound(&tails, &num);
        if pos == tails.len() {
            tails.push(num);
        } else {
            tails.set(pos, num);
        }
    }
    tails.len()
}

/// The length of the longest strictly increasing subsequence, table
/// form.
pub fn lis_quadratic(arr: &Vec<i32>) -> (r: usize)
    requires
        arr@.len() < usize::MAX,
    ensures
        r <= arr@.len(),
        arr@.len() > 0 ==> 1 <= r,
{
    if arr.len() == 0 {
        return 0;
    }
    let n = arr.len();
    let mut dp: Vec<usize> = Vec::new();
    for i in 0..n
        invariant
            n == arr@.len() < usize::MAX,
            dp@.len() == i,
            forall|p: int| 0 <= p < i ==> 1 <= (#[trigger] dp@[p]) <= p + 1,
    {
        dp.push(1);
        let base = dp.len() - 1;
        for j in 0..base
            invariant
                n == arr@.len() < usize::MAX,
                base == i < n,
                dp@.len() == i + 1,
                forall|p: int| 0 <= p < i ==> 1 <= (#[trigger] dp@[p]) <= p + 1,
                1 <= dp@[i as int] <= i + 1,
        {
            if arr[j] < arr[i] {
                let cand = dp[j] + 1;
                if cand > dp[i] {
                    dp.set(i, cand);
                }
            }
        }
    }
    let mut best = dp[0];
    for i in 1..n
        invariant
            n == dp@.len(),
            forall|p: int| 0 <= p < n ==> 1 <= (#[trigger] dp@[p]) <= p + 1,
            1 <= best <= n,
    {
        if dp[i] > best {
            best = dp[i];
        }
    }
    best
}

/// The minimum number of single-character edits turning one string into
/// the other.
pub fn edit_distance(s1: &str, s2: &str) -> (r: usize)
    requires
        s1@.len() < usize::MAX,
        s2@.len() < usize::MAX,
        s1@.len() + s2@.len() < usize::MAX,
    ensures
        r <= s1@.len() + s2@.len(),
{
    let chars1 = chars_vec(s1);
    let chars2 = chars_vec(s2);
    let m = chars1.len();
    let n = chars2.len();
    let mut dp: Vec<Vec<usize>> = Vec::new();
    for i in 0..m + 1
        invariant
            m == chars1@.len() < usize::MAX,
            n == chars2@.len() < usize::MAX,
            m + n < usize::MAX,
            dp@.len() == i,
            forall|p: int| 0 <= p < i ==> (#[trigger] dp@[p])@.len() == n + 1,
            forall|p: int, q: int|
                0 <= p < i && 0 <= q <= n ==> (#[trigger] dp@[p]@[q]) <= p + q,
    {
        let mut row: Vec<usize> = Vec::new();
        for j in 0..n + 1
            invariant
                n < usize::MAX,
                i <= m,
                m + n < usize::MAX,
                row@.len() == j,
                forall|q: int| 0 <= q < j ==> (#[trigger] row@[q]) <= i + q,
        {
            if j == 0 {
                row.push(i);
            } else if i == 0 {
                row.push(j);
            } else {
                row.push(0);
            }
        }
        dp.push(row);
    }
    for i in 1..m + 1
        invariant
            m == chars1@.len() < usize::MAX,
            n == chars2@.len() < usize::MAX,
            m + n < usize::MAX,
            1 <= i,
            dp@.len() == m + 1,
            forall|p: int| 0 <= p <= m ==> (#[trigger] dp@[p])@.len() == n + 1,
            forall|p: int, q: int|
                0 <= p <= m && 0 <= q <= n ==> (#[trigger] dp@[p]@[q]) <= p + q,
    {
        let mut row = dp.remove(i);
        let ghost dp_rest = dp@;
        for j in 1..n + 1
            invariant
                m == chars1@.len() < usize::MAX,
                n == chars2@.len() < usize::MAX,
                m + n < usize::MAX,
                1 <= i <= m,
                1 <= j,
                dp@ == dp_rest,
                dp@.len() == m,
                row@.len() == n + 1,
                forall|p: int| 0 <= p < i ==> (#[trigger] dp@[p])@.len() == n + 1,
                forall|p: int, q: int|
                    0 <= p < i && 0 <= q <= n ==> (#[trigger] dp@[p]@[q]) <= p + q,
                forall|q: int| 0 <= q <= n ==> (#[trigger] row@[q]) <= i + q,
        {
            let val = if chars1[i - 1] == chars2[j - 1] {
                dp[i - 1][j - 1]
            } else {
                let a = dp[i - 1][j - 1];
                let b = dp[i - 1][j];
                let c = row[j - 1];
                let ab = if a < b {
                    a
                } else {
                    b
                };
                let abc = if ab < c {
                    ab
                } else {
                    c
                };
                1 + abc
            };
            row.set(j, val);
        }
        dp.insert(i, row);
        proof {
            assert forall|p: int, q: int|
                0 <= p <= m && 0 <= q <= n implies (#[trigger] dp@[p]@[q]) <= p + q by {
                if p < i {
                    assert(dp@[p] == dp_rest[p]);
                }
            }
        }
    }
    dp[m][n]
}

/// Adds two non-negative tallies, saturating at the machine limit.
fn sat_add_nonneg(a: i32, b: i32) -> (r: i32)
    requires
        a >= 0,
    ensures
        b >= 0 && a + b <= i32::MAX ==> r == a + b,
        b >= 0 && a + b > i32::MAX ==> r == i32::MAX,
        b < 0 ==> r == a + b,
        r == i32::MAX || r >= a + b,
{
    if b >= 0 && a > i32::MAX - b {
        i32::MAX
    } else {
        a + b
    }
}

/// The fewest coins that make the amount, or -1 when no combination
/// exists.
pub fn coin_change(coins: &Vec<i32>, amount: i32) -> (r: i32)
    ensures
        amount < 0 ==> r == -1,
        amount == 0 ==> r == 0,
        r == -1 || 0 <= r <= amount,
{
    if amount < 0 {
        return -1;
    }
    if amount == 0 {
        return 0;
    }
    let amt = amount as usize;
    let mut dp: Vec<i32> = Vec::new();
    dp.push(0);
    for i in 1..amt + 1
        invariant
            amt == amount as int,
            amt < usize::MAX,
            dp@.len() == i,
            dp@[0] == 0,
            forall|p: int| 0 <= p < i ==> (#[trigger] dp@[p]) == i32::MAX || 0 <= dp@[p] <= p,
    {
        dp.push(i32::MAX);
        let nc = coins.len();
        for ci in 0..nc
            invariant
                nc == coins@.len(),
                amt == amount as int,
                1 <= i <= amt,
                dp@.len() == i + 1,
                dp@[0] == 0,
                forall|p: int|
                    0 <= p < i ==> (#[trigger] dp@[p]) == i32::MAX || 0 <= dp@[p] <= p,
                dp@[i as int] == i32::MAX || 0 <= dp@[i as int] <= i,
        {
            let coin = coins[ci];
            if coin >= 0 {
                let c = coin as usize;
                if c <= i && dp[i - c] != i32::MAX {
                    let cand = dp[i - c] + 1;
                    if cand < dp[i] {
                        dp.set(i, cand);
                    }
                }
            }
        }
    }
    if dp[amt] == i32::MAX {
        -1
    } else {
        dp[amt]
    }
}

/// How many coin combinations make the amount; the count saturates at
/// the machine limit.
pub fn coin_change_ways(coins: &Vec<i32>, amount: i32) -> (r: i32)
    ensures
        amount < 0 ==> r == 0,
        r >= 0,
{
    if amount < 0 {
        return 0;
    }
    let amt = amount as usize;
    let mut dp: Vec<i32> = Vec::new();
    dp.push(1);
    for i in 1..amt + 1
        invariant
            amt < usize::MAX,
            dp@.len() == i,
            forall|p: int| 0 <= p < i ==> (#[trigger] dp@[p]) >= 0,
    {
        dp.push(0);
    }
    let nc = coins.len();
    for ci in 0..nc
        invariant
            nc == coins@.len(),
            amt < usize::MAX,
            dp@.len() == amt + 1,
            forall|p: int| 0 <= p <= amt ==> (#[trigger] dp@[p]) >= 0,
    {
        let coin = coins[ci];
        if coin >= 0 {
            let c = coin as usize;
            if c <= amt && c >= 1 {
                for i in c..amt + 1
                    invariant
                        1 <= c <= amt < usize::MAX,
                        dp@.len() == amt + 1,
                        forall|p: int| 0 <= p <= amt ==> (#[trigger] dp@[p]) >= 0,
                {
                    let add = dp[i - c];
                    let cur = dp[i];
                    dp.set(i, sat_add_nonneg(cur, add));
                }
            } else if c == 0 {
                for i in 0..amt + 1
                    invariant
                        amt < usize::MAX,
                        dp@.len() == amt + 1,
                        forall|p: int| 0 <= p <= amt ==> (#[trigger] dp@[p]) >= 0,
                {
                    let cur = dp[i];
                    dp.set(i, sat_add_nonneg(cur, cur));
                }
            }
        }
    }
    dp[amt]
}

/// The greatest value packing the knapsack, one use per item; sums
/// saturate at the machine limit.
pub fn knapsack_01(values: &Vec<i32>, weights: &Vec<i32>, capacity: i32) -> (r: i32)
    requires
        weights@.len() >= values@.len(),
        forall|k: int| 0 <= k < values@.len() ==> (#[trigger] values@[k]) >= 0,
    ensures
        r >= 0,
{
    if values.len() == 0 || capacity <= 0 {
        return 0;
    }
    let cap = capacity as usize;
    let n = values.len();
    let mut dp: Vec<i32> = Vec::new();
    for i in 0..cap + 1
        invariant
            cap < usize::MAX,
            dp@.len() == i,
            forall|p: int| 0 <= p < i ==> (#[trigger] dp@[p]) >= 0,
    {
        dp.push(0);
    }
    for i in 0..n
        invariant
            n == values@.len() <= weights@.len(),
            forall|k: int| 0 <= k < values@.len() ==> (#[trigger] values@[k]) >= 0,
            dp@.len() == cap + 1,
            forall|p: int| 0 <= p <= cap ==> (#[trigger] dp@[p]) >= 0,
    {
        let wi = weights[i];
        if wi >= 0 && (wi as usize) <= cap {
            let w = wi as usize;
            let mut c = cap;
            while c >= w
                invariant
                    w <= cap,
                    c <= cap,
                    i < n,
                    n == values@.len() <= weights@.len(),
                    forall|k: int| 0 <= k < values@.len() ==> (#[trigger] values@[k]) >= 0,
                    dp@.len() == cap + 1,
                    forall|p: int| 0 <= p <= cap ==> (#[trigger] dp@[p]) >= 0,
                decreases c,
            {
                let cand = sat_add_nonneg(dp[c - w], values[i]);
                if cand > dp[c] {
                    dp.set(c, cand);
                }
                if c == w {
                    break;
                }
                c = c - 1;
            }
        }
    }
    dp[cap]
}

/// The greatest value packing the knapsack with unlimited copies of
/// each item; sums saturate at the machine limit.
pub fn knapsack_unbounded(values: &Vec<i32>, weights: &Vec<i32>, capacity: i32) -> (r: i32)
    requires
        weights@.len() >= values@.len(),
        forall|k: int| 0 <= k < values@.len() ==> (#[trigger] values@[k]) >= 0,
    ensures
        r >= 0,
{
    if values.len() == 0 || capacity <= 0 {
        return 0;
    }
    let cap = capacity as usize;
    let n = values.len();
    let mut dp: Vec<i32> = Vec::new();
    for i in 0..cap + 1
        invariant
            cap < usize::MAX,
            dp@.len() == i,
            forall|p: int| 0 <= p < i ==> (#[trigger] dp@[p]) >= 0,
    {
        dp.push(0);
    }
    for c in 1..cap + 1
        invariant
            cap < usize::MAX,
            n == values@.len() <= weights@.len(),
            forall|k: int| 0 <= k < values@.len() ==> (#[trigger] values@[k]) >= 0,
            dp@.len() == cap + 1,
            forall|p: int| 0 <= p <= cap ==> (#[trigger] dp@[p]) >= 0,
    {
        for i in 0..n
            invariant
                1 <= c <= cap,
                n == values@.len() <= weights@.len(),
                forall|k: int| 0 <= k < values@.len() ==> (#[trigger] values@[k]) >= 0,
                dp@.len() == cap + 1,
                forall|p: int| 0 <= p <= cap ==> (#[trigger] dp@[p]) >= 0,
        {
            let wi = weights[i];
            if wi >= 0 && (wi as usize) <= c {
                let w = wi as usize;
                let cand = sat_add_nonneg(dp[c - w], values[i]);
                if cand > dp[c] {
                    dp.set(c, cand);
                }
            }
        }
    }
    dp[cap]
}

/// The greatest sum over any non-empty contiguous run, Kadane's scan.
pub fn max_subarray_sum(arr: &Vec<i32>) -> (r: i32)
    requires
        arr@.len() <= 0x4000,
        forall|j: int| 0 <= j < arr@.len() ==> -0x10000 <= (#[trigger] arr@[j]) <= 0x10000,
    ensures
        arr@.len() == 0 ==> r == 0,
{
    if arr.len() == 0 {
        return 0;
    }
    let mut max_ending_here = arr[0];
    let mut max_so_far = arr[0];
    let n = arr.len();
    for i in 1..n
        invariant
            n == arr@.len() <= 0x4000,
            forall|j: int| 0 <= j < arr@.len() ==> -0x10000 <= (#[trigger] arr@[j]) <= 0x10000,
            -0x10000 * (i as int) <= max_ending_here <= 0x10000 * (i as int),
            -0x10000 * (i as int) <= max_so_far <= 0x10000 * (i as int),
    {
        let num = arr[i];
        let ext = max_ending_here + num;
        max_ending_here = if num > ext {
            num
        } else {
            ext
        };
        if max_ending_here > max_so_far {
            max_so_far = max_ending_here;
        }
    }
    max_so_far
}

/// Kadane's scan that also reports the bounds of a best run.
pub fn max_subarray_with_indices(arr: &Vec<i32>) -> (r: (i32, usize, usize))
    requires
        arr@.len() <= 0x4000,
        forall|j: int| 0 <= j < arr@.len() ==> -0x10000 <= (#[trigger] arr@[j]) <= 0x10000,
    ensures
        arr@.len() == 0 ==> r == (0i32, 0usize, 0usize),
        arr@.len() > 0 ==> r.1 <= r.2 < arr@.len(),
{
    if arr.len() == 0 {
        return (0, 0, 0);
    }
    let mut max_ending_here = arr[0];
    let mut max_so_far = arr[0];
    let mut start: usize = 0;
    let mut end: usize = 0;
    let mut temp_start: usize = 0;
    let n = arr.len();
    for i in 1..n
        invariant
            n == arr@.len() <= 0x4000,
            forall|j: int| 0 <= j < arr@.len() ==> -0x10000 <= (#[trigger] arr@[j]) <= 0x10000,
            -0x10000 * (i as int) <= max_ending_here <= 0x10000 * (i as int),
            -0x10000 * (i as int) <= max_so_far <= 0x10000 * (i as int),
            temp_start < n,
            temp_start <= i,
            start <= end < n,
    {
        let num = arr[i];
        let ext = max_ending_here + num;
        if num > ext {
            max_ending_here = num;
            temp_start = i;
        } else {
            max_ending_here = ext;
        }
        if max_ending_here > max_so_far {
            max_so_far = max_ending_here;
            start = temp_start;
            end = i;
        }
        proof {
            assert(start <= end);
        }
    }
    (max_so_far, start, end)
}

/// Ways to climb `n` steps taking one or two at a time.
pub open spec fn climb_spec(n: nat) -> nat
    decreases n,
{
    if n <= 2 {
        n
    } else {
        climb_spec((n - 1) as nat) + climb_spec((n - 2) as nat)
    }
}

/// Climbing counts never shrink as the staircase grows.
proof fn lemma_climb_mono(a: nat, b: nat)
    requires
        a <= b,
    ensures
        climb_spec(a) <= climb_spec(b),
    decreases b,
{
    if a < b {
        lemma_climb_mono(a, (b - 1) as nat);
        if b > 2 {
            assert(climb_spec(b) == climb_spec((b - 1) as nat) + climb_spec((b - 2) as nat));
        } else {
            assert(climb_spec((b - 1) as nat) <= climb_spec(b));
        }
    }
}

/// The count of ways for 45 steps, the largest that fits the return
/// type of `climb_stairs`.
proof fn lemma_climb_45()
    ensures
        climb_spec(45) == 1836311903,
{
    assert(climb_spec(3) == climb_spec(2) + climb_spec(1));
    assert(climb_spec(4) == climb_spec(3) + climb_spec(2));
    assert(climb_spec(5) == climb_spec(4) + climb_spec(3));
    assert(climb_spec(6) == climb_spec(5) + climb_spec(4));
    assert(climb_spec(7) == climb_spec(6) + climb_spec(5));
    assert(climb_spec(8) == climb_spec(7) + climb_spec(6));
    assert(climb_spec(9) == climb_spec(8) + climb_spec(7));
    assert(climb_spec(10) == climb_spec(9) + climb_spec(8));
    assert(climb_spec(11) == climb_spec(10) + climb_spec(9));
    assert(climb_spec(12) == climb_spec(11) + climb_spec(10));
    assert(climb_spec(13) == climb_spec(12) + climb_spec(11));
    assert(climb_spec(14) == climb_spec(13) + climb_spec(12));
    assert(climb_spec(15) == climb_spec(14) + climb_spec(13));
    assert(climb_spec(16) == climb_spec(15) + climb_spec(14));
    assert(climb_spec(17) == climb_spec(16) + climb_spec(15));
    assert(climb_spec(18) == climb_spec(17) + climb_spec(16));
    assert(climb_spec(19) == climb_spec(18) + climb_spec(17));
    assert(climb_spec(20) == climb_spec(19) + climb_spec(18));
    assert(climb_spec(21) == climb_spec(20) + climb_spec(19));
    assert(climb_spec(22) == climb_spec(21) + climb_spec(20));
    assert(climb_spec(23) == climb_spec(22) + climb_spec(21));
    assert(climb_spec(24) == climb_spec(23) + climb_spec(22));
    assert(climb_spec(25) == climb_spec(24) + climb_spec(23));
    assert(climb_spec(26) == climb_spec(25) + climb_spec(24));
    assert(climb_spec(27) == climb_spec(26) + climb_spec(25));
    assert(climb_spec(28) == climb_spec(27) + climb_spec(26));
    assert(climb_spec(29) == climb_spec(28) + climb_spec(27));
    assert(climb_spec(30) == climb_spec(29) + climb_spec(28));
    assert(climb_spec(31) == climb_spec(30) + climb_spec(29));
    assert(climb_spec(32) == climb_spec(31) + climb_spec(30));
    assert(climb_spec(33) == climb_spec(32) + climb_spec(31));
    assert(climb_spec(34) == climb_spec(33) + climb_spec(32));
    assert(climb_spec(35) == climb_spec(34) + climb_spec(33));
    assert(climb_spec(36) == climb_spec(35) + climb_spec(34));
    assert(climb_spec(37) == climb_spec(36) + climb_spec(35));
    assert(climb_spec(38) == climb_spec(37) + climb_spec(36));
    assert(climb_spec(39) == climb_spec(38) + climb_spec(37));
    assert(climb_spec(40) == climb_spec(39) + climb_spec(38));
    assert(climb_spec(41) == climb_spec(40) + climb_spec(39));
    assert(climb_spec(42) == climb_spec(41) + climb_spec(40));
    assert(climb_spec(43) == climb_spec(42) + climb_spec(41));
    assert(climb_spec(44) == climb_spec(43) + climb_spec(42));
    assert(climb_spec(45) == climb_spec(44) + climb_spec(43));
}

/// The number of distinct ways to climb `n` steps, one or two at a
/// time. The count for 45 steps is the largest that fits the return
/// type.
pub fn climb_stairs(n: i32) -> (r: i32)
    requires
        n <= 45,
    ensures
        n <= 0 ==> r == 0,
        n >= 1 ==> r == climb_spec(n as nat),
{
    if n <= 2 {
        if n <= 0 {
            return 0;
        }
        return n;
    }
    proof {
        lemma_climb_45();
    }
    let mut prev2: i32 = 1;
    let mut prev1: i32 = 2;
    let mut k: i32 = 2;
    while k < n
        invariant
            2 <= k <= n <= 45,
            prev1 == climb_spec(k as nat),
            prev2 == climb_spec((k - 1) as nat),
            climb_spec(45) == 1836311903,
        decreases n - k,
    {
        proof {
            lemma_climb_mono((k + 1) as nat, 45);
            assert(climb_spec((k + 1) as nat) == climb_spec(k as nat) + climb_spec(
                (k - 1) as nat));
        }
        let curr = prev1 + prev2;
        prev2 = prev1;
        prev1 = curr;
        k = k + 1;
    }
    prev1
}

/// The greatest sum of non-adjacent entries, by the rolling pair scan.
pub fn house_robber(nums: &Vec<i32>) -> (r: i32)
    requires
        nums@.len() <= 0x4000,
        forall|j: int| 0 <= j < nums@.len() ==> 0 <= (#[trigger] nums@[j]) <= 0x10000,
    ensures
        r >= 0 || nums@.len() == 1,
{
    if nums.len() == 0 {
        return 0;
    }
    if nums.len() == 1 {
        return nums[0];
    }
    let mut prev2: i32 = 0;
    let mut prev1: i32 = 0;
    let n = nums.len();
    for i in 0..n
        invariant
            n == nums@.len() <= 0x4000,
            forall|j: int| 0 <= j < nums@.len() ==> 0 <= (#[trigger] nums@[j]) <= 0x10000,
            0 <= prev2 <= 0x10000 * (i as int),
            0 <= prev1 <= 0x10000 * (i as int),
    {
        let num = nums[i];
        let take = prev2 + num;
        let curr = if prev1 > take {
            prev1
        } else {
            take
        };
        prev2 = prev1;
        prev1 = curr;
    }
    prev1
}

/// Whether the string splits into words from the dictionary, matched on
/// bytes.
pub fn word_break(s: &str, word_dict: &Vec<&str>) -> (r: bool)
{
    let s_bytes = s.as_bytes();
    let n = s_bytes.len();
    if n >= usize::MAX {
        return false;
    }
    let mut dp: Vec<bool> = Vec::new();
    dp.push(true);
    for i in 1..n + 1
        invariant
            n == s_bytes@.len() < usize::MAX,
            dp@.len() == i,
    {
        let mut ok = false;
        let nd = word_dict.len();
        for wi in 0..nd
            invariant
                nd == word_dict@.len(),
                n == s_bytes@.len(),
                1 <= i <= n,
                dp@.len() == i,
        {
            if !ok {
                let word = word_dict[wi];
                let w_bytes = word.as_bytes();
                let wl = w_bytes.len();
                if wl >= 1 && wl <= i && dp[i - wl] {
                    if bytes_match(s_bytes, i - wl, w_bytes) {
                        ok = true;
                    }
                }
            }
        }
        dp.push(ok);
    }
    dp[n]
}

/// Whether `hay[at .. at + needle.len())` equals `needle`.
fn bytes_match(hay: &[u8], at: usize, needle: &[u8]) -> (r: bool)
    requires
        at + needle@.len() <= hay@.len(),
        hay@.len() <= usize::MAX,
{
    let m = needle.len();
    for k in 0..m
        invariant
            m == needle@.len(),
            at + m <= hay@.len(),
            hay@.len() <= usize::MAX,
    {
        if hay[at + k] != needle[k] {
            return false;
        }
    }
    true
}

} // verus!
