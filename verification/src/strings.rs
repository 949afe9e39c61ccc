//! String matching and palindrome routines.

use vstd::prelude::*;
use vstd::string::StrSliceExecFns;
use vstd::string::StringSliceAdditionalSpecFns;
use vstd::pervasive::VecAdditionalExecFns;
use crate::searching::chars_vec;

verus! {

/// Relies on `String::push`: appends exactly the given character.
pub assume_specification[ String::push ](s: &mut String, ch: char)
    ensures
        final(s)@ == old(s)@.push(ch),
;

/// A fresh empty string.
pub fn empty_string() -> (r: String)
    ensures
        r@ == Seq::<char>::empty(),
{
    String::new()
}

/// Appends one character to the string.
pub fn push_char(s: &mut String, ch: char)
    ensures
        final(s)@ == old(s)@.push(ch),
{
    s.push(ch);
}

/// The longest-proper-prefix-suffix table of the pattern: entry `i` is
/// the length of the longest proper prefix of `pattern[..=i]` that is
/// also its suffix; each entry is at most its index.
pub fn kmp_failure_function(pattern: &str) -> (r: Vec<usize>)
    ensures
        r@.len() == pattern@.len(),
        forall|k: int| 0 <= k < r@.len() ==> (#[trigger] r@[k]) <= k,
{
    let chars = chars_vec(pattern);
    let m = chars.len();
    if m == 0 {
        return Vec::new();
    }
    let mut lps: Vec<usize> = Vec::new();
    for t in 0..m
        invariant
            lps@.len() == t,
            forall|k: int| 0 <= k < t ==> (#[trigger] lps@[k]) == 0,
    {
        lps.push(0);
    }
    let mut len: usize = 0;
    let mut i: usize = 1;
    while i < m
        invariant
            m == chars@.len(),
            lps@.len() == m,
            1 <= i <= m,
            len < i,
            forall|k: int| 0 <= k < m ==> (#[trigger] lps@[k]) <= k,
        decreases m - i, len,
    {
        if chars[i] == chars[len] {
            len = len + 1;
            lps.set(i, len);
            i = i + 1;
        } else if len != 0 {
            len = lps[len - 1];
        } else {
            lps.set(i, 0);
            i = i + 1;
        }
    }
    lps
}

/// Every position at which the pattern occurs in the text, by the
/// Knuth-Morris-Pratt scan; each reported start leaves room for the
/// whole pattern.
pub fn kmp_search(text: &str, pattern: &str) -> (r: Vec<usize>)
    ensures
        forall|t: int|
            0 <= t < r@.len() ==> (#[trigger] r@[t]) + pattern@.len() <= text@.len(),
{
    let mut result: Vec<usize> = Vec::new();
    let text_chars = chars_vec(text);
    let pattern_chars = chars_vec(pattern);
    let n = text_chars.len();
    let m = pattern_chars.len();
    if m == 0 || m > n {
        return result;
    }
    let lps = kmp_failure_function(pattern);
    let mut i: usize = 0;
    let mut j: usize = 0;
    while i < n
        invariant
            n == text_chars@.len() == text@.len(),
            m == pattern_chars@.len() == pattern@.len(),
            1 <= m <= n,
            lps@.len() == m,
            forall|k: int| 0 <= k < m ==> (#[trigger] lps@[k]) <= k,
            j < m,
            j <= i <= n,
            forall|t: int|
                0 <= t < result@.len() ==> (#[trigger] result@[t]) + m <= n,
        decreases n - i, j,
    {
        if pattern_chars[j] == text_chars[i] {
            i = i + 1;
            j = j + 1;
        }
        if j == m {
            result.push(i - j);
            j = lps[j - 1];
        } else if i < n && pattern_chars[j] != text_chars[i] {
            if j != 0 {
                j = lps[j - 1];
            } else {
                i = i + 1;
            }
        }
    }
    result
}

/// Every position at which the pattern's bytes occur in the text's
/// bytes, screened by a rolling hash and confirmed byte for byte.
pub fn rabin_karp(text: &str, pattern: &str) -> (r: Vec<usize>)
    ensures
        forall|t: int|
            0 <= t < r@.len() ==> (#[trigger] r@[t]) + pattern.spec_bytes().len()
                <= text.spec_bytes().len(),
{
    let mut result: Vec<usize> = Vec::new();
    let text_bytes = text.as_bytes();
    let pattern_bytes = pattern.as_bytes();
    let n = text_bytes.len();
    let m = pattern_bytes.len();
    if m == 0 || m > n {
        return result;
    }
    let base: u64 = 256;
    let modulus: u64 = 1_000_000_007;
    let mut h: u64 = 1;
    let hsteps = m - 1;
    for t in 0..hsteps
        invariant
            base == 256,
            modulus == 1_000_000_007,
            h < 1_000_000_007,
    {
        h = (h * base) % modulus;
    }
    let mut pattern_hash: u64 = 0;
    let mut text_hash: u64 = 0;
    for i in 0..m
        invariant
            base == 256,
            modulus == 1_000_000_007,
            m <= n == text_bytes@.len(),
            m == pattern_bytes@.len(),
            pattern_hash < 1_000_000_007,
            text_hash < 1_000_000_007,
    {
        pattern_hash = (pattern_hash * base + pattern_bytes[i] as u64) % modulus;
        text_hash = (text_hash * base + text_bytes[i] as u64) % modulus;
    }
    let windows = n - m;
    for i in 0..windows + 1
        invariant
            base == 256,
            modulus == 1_000_000_007,
            windows == n - m,
            1 <= m <= n == text_bytes@.len(),
            m == pattern_bytes@.len(),
            h < 1_000_000_007,
            text_hash < 1_000_000_007,
            pattern_hash < 1_000_000_007,
            n == text.spec_bytes().len(),
            m == pattern.spec_bytes().len(),
            forall|t: int|
                0 <= t < result@.len() ==> (#[trigger] result@[t]) + m <= n,
    {
        if pattern_hash == text_hash {
            let mut same = true;
            for k in 0..m
                invariant
                    base == 256,
                    modulus == 1_000_000_007,
                    h < 1_000_000_007,
                    text_hash < 1_000_000_007,
                    pattern_hash < 1_000_000_007,
                    i + m <= n == text_bytes@.len(),
                    m == pattern_bytes@.len(),
            {
                if text_bytes[i + k] != pattern_bytes[k] {
                    same = false;
                }
            }
            if same {
                result.push(i);
            }
        }
        if i < n - m {
            let tb = text_bytes[i];
            proof {
                assert((tb as u128) * (h as u128) <= 255u128 * 0xffffffffffffffffu128)
                    by (nonlinear_arith)
                    requires
                        (tb as u128) <= 255,
                        (h as u128) <= 0xffffffffffffffffu128,
                {}
            }
            let prodm = (((tb as u128) * (h as u128)) % (modulus as u128)) as u64;
            text_hash = (text_hash + modulus - prodm) % modulus;
            text_hash = (text_hash * base + text_bytes[i + m] as u64) % modulus;
        }
    }
    result
}

/// The Z-array of the string: entry `i` is the length of the longest
/// common prefix of the string and its suffix at `i` (entry 0 is the
/// whole length).
pub fn z_function(s: &str) -> (r: Vec<usize>)
    ensures
        r@.len() == s@.len(),
{
    let chars = chars_vec(s);
    let n = chars.len();
    if n == 0 {
        return Vec::new();
    }
    let mut z: Vec<usize> = Vec::new();
    z.push(n);
    for t in 1..n
        invariant
            n == chars@.len(),
            z@.len() == t,
            z@[0] == n,
            forall|k: int| 1 <= k < t ==> (#[trigger] z@[k]) == 0,
    {
        z.push(0);
    }
    let mut l: usize = 0;
    let mut r: usize = 0;
    for i in 1..n
        invariant
            n == chars@.len(),
            z@.len() == n,
            l <= i,
            r <= n,
            forall|k: int| 0 <= k < n ==> (#[trigger] z@[k]) <= n - k,
    {
        if i < r {
            let bound = r - i;
            let mirrored = z[i - l];
            let v = if bound < mirrored {
                bound
            } else {
                mirrored
            };
            let v = if v <= n - i {
                v
            } else {
                n - i
            };
            z.set(i, v);
        }
        while i + z[i] < n && chars[z[i]] == chars[i + z[i]]
            invariant
                n == chars@.len(),
                z@.len() == n,
                i < n,
                z@[i as int] <= n - i,
                forall|k: int| 0 <= k < n ==> (#[trigger] z@[k]) <= n - k,
            decreases n - i - z@[i as int],
        {
            let zi = z[i];
            z.set(i, zi + 1);
        }
        if i + z[i] > r {
            l = i;
            r = i + z[i];
        }
    }
    z
}

/// Every position at which the pattern occurs in the text, found
/// through the Z-array of `pattern`, a separator, and `text`.
pub fn z_search(text: &str, pattern: &str) -> (r: Vec<usize>)
    ensures
        forall|t: int|
            0 <= t < r@.len() ==> (#[trigger] r@[t]) <= text@.len(),
{
    let mut result: Vec<usize> = Vec::new();
    let pattern_len = pattern.unicode_len();
    let text_len = text.unicode_len();
    if pattern_len == 0 || pattern_len > text_len {
        return result;
    }
    let mut concat = empty_string();
    let p_chars = chars_vec(pattern);
    for i in 0..p_chars.len()
        invariant
            concat@.len() == i,
    {
        push_char(&mut concat, p_chars[i]);
    }
    push_char(&mut concat, '\0');
    let t_chars = chars_vec(text);
    for i in 0..t_chars.len()
        invariant
            concat@.len() == pattern@.len() + 1 + i,
            t_chars@.len() == text@.len(),
            p_chars@.len() == pattern@.len(),
    {
        push_char(&mut concat, t_chars[i]);
    }
    let z = z_function(concat.as_str());
    let zlen = z.len();
    let lo = pattern_len + 1;
    if lo > zlen {
        return result;
    }
    for i in lo..zlen
        invariant
            lo == pattern_len + 1,
            zlen == z@.len(),
            pattern_len == pattern@.len(),
            text_len == text@.len(),
            zlen == pattern_len + 1 + text_len,
            forall|t: int|
                0 <= t < result@.len() ==> (#[trigger] result@[t]) <= text@.len(),
    {
        if z[i] == pattern_len {
            result.push(i - pattern_len - 1);
        }
    }
    result
}

/// What `char::is_alphanumeric` returns; it depends on the character
/// alone.
pub uninterp spec fn alnum_of(c: char) -> bool;

/// Relies on `char::is_alphanumeric`: a fixed classification of the
/// character.
#[verifier::external_body]
fn is_alnum(c: char) -> (r: bool)
    ensures
        r == alnum_of(c),
{
    c.is_alphanumeric()
}

/// An ASCII uppercase letter lowered; any other character unchanged.
pub open spec fn ascii_lower_of(c: char) -> char {
    if 65 <= c as u32 <= 90 {
        ((c as u32 + 32) as u8) as char
    } else {
        c
    }
}

/// Relies on `char::to_ascii_lowercase`: adds 32 to an ASCII uppercase
/// code point and leaves every other character alone.
#[verifier::external_body]
fn ascii_lower(c: char) -> (r: char)
    ensures
        r == ascii_lower_of(c),
{
    c.to_ascii_lowercase()
}

/// Whether the string reads the same both ways once everything but
/// alphanumeric characters is dropped and ASCII case is ignored.
pub fn is_palindrome(s: &str) -> (r: bool)
    ensures
        s@.len() == 0 ==> r,
{
    let chars = chars_vec(s);
    let n = chars.len();
    let mut cleaned: Vec<char> = Vec::new();
    for i in 0..n
        invariant
            n == chars@.len() == s@.len(),
            cleaned@.len() <= i,
    {
        if is_alnum(chars[i]) {
            cleaned.push(ascii_lower(chars[i]));
        }
    }
    if cleaned.len() == 0 {
        return true;
    }
    let mut left: usize = 0;
    let mut right: usize = cleaned.len() - 1;
    while left < right
        invariant
            right < cleaned@.len(),
            cleaned@.len() <= n == s@.len(),
            cleaned@.len() >= 1,
        decreases right,
    {
        if cleaned[left] != cleaned[right] {
            return false;
        }
        left = left + 1;
        right = right - 1;
    }
    true
}

/// Widens a palindrome around the given center while the ends match;
/// the result is the start and length of the widest match (length 0
/// when even the center pair differs).
fn expand_around(chars: &Vec<char>, left: usize, right: usize) -> (res: (usize, usize))
    requires
        left <= right,
        left < chars@.len(),
    ensures
        res.0 + res.1 <= chars@.len(),
        res.0 <= left,
{
    let n = chars.len();
    let mut start = left;
    let mut len: usize = 0;
    let mut l = left;
    let mut r = right;
    while r < n && chars[l] == chars[r]
        invariant
            l <= left < n == chars@.len(),
            left <= right,
            l + r == left + right,
            start <= left,
            start + len <= n,
        decreases l,
    {
        start = l;
        len = r - l + 1;
        if l == 0 {
            return (start, len);
        }
        l = l - 1;
        r = r + 1;
    }
    (start, len)
}

/// The widest palindromic run of characters in the string.
pub fn longest_palindromic_substring(s: &str) -> (r: String)
    ensures
        r@.len() <= s@.len(),
{
    let chars = chars_vec(s);
    let n = chars.len();
    if n <= 1 {
        return s.to_owned();
    }
    let mut start: usize = 0;
    let mut max_len: usize = 1;
    for i in 0..n
        invariant
            n == chars@.len() == s@.len(),
            start + max_len <= n,
            1 <= max_len,
    {
        let (s1, len1) = expand_around(&chars, i, i);
        if len1 > max_len {
            start = s1;
            max_len = len1;
        }
        if i + 1 < n {
            let (s2, len2) = expand_around(&chars, i, i + 1);
            if len2 > max_len {
                start = s2;
                max_len = len2;
            }
        }
    }
    let sub = s.substring_char(start, start + max_len);
    sub.to_owned()
}

/// How many palindromes sit around the given center: one for each
/// matching widening of the window.
fn count_from_center(chars: &Vec<char>, left: usize, right: usize) -> (res: usize)
    requires
        left <= right,
    ensures
        res <= chars@.len(),
{
    let n = chars.len();
    if right >= n {
        return 0;
    }
    let mut cnt: usize = 0;
    let mut l = left;
    let mut r = right;
    while r < n && chars[l] == chars[r]
        invariant
            l <= left < n == chars@.len(),
            cnt == left - l,
        decreases l,
    {
        cnt = cnt + 1;
        if l == 0 {
            return cnt;
        }
        l = l - 1;
        r = r + 1;
    }
    cnt
}

/// The number of palindromic runs of characters in the string, counted
/// over every center.
pub fn count_palindromic_substrings(s: &str) -> (r: usize)
    requires
        s@.len() <= 0x7fff,
    ensures
        s@.len() == 0 ==> r == 0,
{
    let chars = chars_vec(s);
    let n = chars.len();
    if n == 0 {
        return 0;
    }
    let mut count: usize = 0;
    for i in 0..n
        invariant
            n == chars@.len() <= 0x7fff,
            count <= 2 * n * i,
        decreases n - i,
    {
        let c1 = count_from_center(&chars, i, i);
        let c2 = count_from_center(&chars, i, i + 1);
        proof {
            assert(2 * n * (i + 1) == 2 * n * i + 2 * n) by (nonlinear_arith) {}
            assert(2 * n * i <= 2 * 0x7fff * 0x7fff) by (nonlinear_arith)
                requires
                    0 <= i <= n <= 0x7fff,
            {}
        }
        count = count + c1;
        count = count + c2;
    }
    count
}

/// The start and length, in the given string, of a longest
/// palindromic run, by Manacher's scan over a separator-interleaved
/// copy.
pub fn manacher(s: &str) -> (r: (usize, usize))
    requires
        s@.len() < usize::MAX / 4,
    ensures
        s@.len() == 0 ==> r == (0usize, 0usize),
        r.1 <= 2 * s@.len(),
{
    let chars = chars_vec(s);
    let m = chars.len();
    if m == 0 {
        return (0, 0);
    }
    let mut t: Vec<char> = Vec::new();
    t.push('#');
    for i in 0..m
        invariant
            m == chars@.len(),
            t@.len() == 2 * i + 1,
    {
        t.push(chars[i]);
        t.push('#');
    }
    let n = t.len();
    let mut p: Vec<usize> = Vec::new();
    for i in 0..n
        invariant
            p@.len() == i,
            forall|k: int| 0 <= k < i ==> (#[trigger] p@[k]) == 0,
    {
        p.push(0);
    }
    let mut center: usize = 0;
    let mut right: usize = 0;
    for i in 0..n
        invariant
            n == t@.len(),
            n == 2 * m + 1,
            m == chars@.len() < usize::MAX / 4,
            p@.len() == n,
            center < n,
            right <= n,
            i < right ==> center < i && i - center <= center,
            i < right ==> right <= center + p@[center as int],
            forall|k: int| 0 <= k < n ==> (#[trigger] p@[k]) <= k && p@[k] + k <= n,
        decreases n - i,
    {
        if i < right {
            let bound = right - i;
            let mirrored = p[2 * center - i];
            let mut v = if bound < mirrored {
                bound
            } else {
                mirrored
            };
            if v > i {
                v = i;
            }
            if v > n - i {
                v = n - i;
            }
            p.set(i, v);
        }
        let ghost p0 = p@;
        while i >= p[i] + 1 && i + p[i] + 1 < n && t[i - p[i] - 1] == t[i + p[i] + 1]
            invariant
                n == t@.len(),
                n == 2 * m + 1,
                m < usize::MAX / 4,
                p@.len() == n,
                i < n,
                p@[i as int] <= i,
                p@[i as int] + i <= n,
                forall|k: int| 0 <= k < n && k != i ==> (#[trigger] p@[k]) == p0[k],
                forall|k: int| 0 <= k < n ==> (#[trigger] p@[k]) <= k && p@[k] + k <= n,
            decreases n - p@[i as int],
        {
            let pi = p[i];
            p.set(i, pi + 1);
        }
        let ghost old_center = center;
        let ghost old_right = right;
        if i + p[i] > right {
            center = i;
            right = i + p[i];
        }
        proof {
            if i + 1 < right {
                if right == old_right {
                    assert(i < old_right);
                    assert(center == old_center);
                    assert(center < i);
                    assert(p@[center as int] == p0[center as int]);
                    assert(right <= center + p@[center as int]);
                } else {
                    assert(center == i && right == i + p@[i as int]);
                }
            }
        }
    }
    let mut max_idx: usize = 0;
    let mut max_val: usize = 0;
    for i in 0..n
        invariant
            n == p@.len(),
            n == 2 * m + 1,
            m == chars@.len() == s@.len(),
            max_idx < n,
            max_val == p@[max_idx as int],
            max_val <= max_idx,
            forall|k: int| 0 <= k < n ==> (#[trigger] p@[k]) <= k,
    {
        if p[i] > max_val {
            max_idx = i;
            max_val = p[i];
        }
    }
    let start = (max_idx - max_val) / 2;
    (start, max_val)
}

} // verus!
