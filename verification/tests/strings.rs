use dsa::strings::kmp_failure_function;
use dsa::strings::kmp_search;
use dsa::strings::rabin_karp;
use dsa::strings::z_function;
use dsa::strings::z_search;
use dsa::strings::is_palindrome;
use dsa::strings::longest_palindromic_substring;
use dsa::strings::count_palindromic_substrings;
use dsa::strings::manacher;

#[test]
fn test_failure_function() {
    assert_eq!(kmp_failure_function("ABABAC"), vec![0, 0, 1, 2, 3, 0]);
    assert_eq!(kmp_failure_function("AAAA"), vec![0, 1, 2, 3]);
    assert_eq!(kmp_failure_function("ABCD"), vec![0, 0, 0, 0]);
}

#[test]
fn test_kmp_search() {
    assert_eq!(kmp_search("ABABDABACDABABCABAB", "ABABCABAB"), vec![10]);
    assert_eq!(kmp_search("AAAAAA", "AA"), vec![0, 1, 2, 3, 4]);
    assert_eq!(kmp_search("ABCDEF", "XYZ"), vec![]);
}

#[test]
fn test_kmp_empty() {
    assert_eq!(kmp_search("ABCDEF", ""), vec![]);
    assert_eq!(kmp_search("", "ABC"), vec![]);
}

#[test]
fn test_kmp_pattern_longer() {
    assert_eq!(kmp_search("ABC", "ABCDEF"), vec![]);
}

#[test]
fn test_rabin_karp() {
    assert_eq!(rabin_karp("GEEKS FOR GEEKS", "GEEK"), vec![0, 10]);
    assert_eq!(rabin_karp("AABAACAADAABAABA", "AABA"), vec![0, 9, 12]);
}

#[test]
fn test_rabin_karp_no_match() {
    assert_eq!(rabin_karp("ABCDEF", "XYZ"), vec![]);
}

#[test]
fn test_rabin_karp_empty() {
    assert_eq!(rabin_karp("ABCDEF", ""), vec![]);
}

#[test]
fn test_z_function() {
    assert_eq!(z_function("aabxaab"), vec![7, 1, 0, 0, 3, 1, 0]);
    assert_eq!(z_function("aaaaa"), vec![5, 4, 3, 2, 1]);
}

#[test]
fn test_z_search() {
    assert_eq!(z_search("GEEKS FOR GEEKS", "GEEK"), vec![0, 10]);
    assert_eq!(z_search("AABAACAADAABAABA", "AABA"), vec![0, 9, 12]);
}

#[test]
fn test_z_empty() {
    assert_eq!(z_function(""), vec![]);
    assert_eq!(z_search("ABC", ""), vec![]);
}

#[test]
fn test_is_palindrome() {
    assert!(is_palindrome("racecar"));
    assert!(is_palindrome("A man a plan a canal Panama"));
    assert!(is_palindrome(""));
    assert!(!is_palindrome("hello"));
}

#[test]
fn test_longest_palindromic_substring() {
    let result = longest_palindromic_substring("babad");
    assert!(result == "bab" || result == "aba");

    assert_eq!(longest_palindromic_substring("cbbd"), "bb");
    assert_eq!(longest_palindromic_substring("a"), "a");
}

#[test]
fn test_count_palindromic_substrings() {
    assert_eq!(count_palindromic_substrings("abc"), 3);
    assert_eq!(count_palindromic_substrings("aaa"), 6);
}

#[test]
fn test_manacher() {
    let (_, len) = manacher("babad");
    assert!(len >= 3);

    let (_, len) = manacher("cbbd");
    assert_eq!(len, 2);
}
