use dsa::dynamic_programming::fibonacci;
use dsa::dynamic_programming::fibonacci_memo;
use dsa::dynamic_programming::longest_common_subsequence;
use dsa::dynamic_programming::lcs_string;
use dsa::dynamic_programming::longest_increasing_subsequence;
use dsa::dynamic_programming::lis_quadratic;
use dsa::dynamic_programming::edit_distance;
use dsa::dynamic_programming::coin_change;
use dsa::dynamic_programming::coin_change_ways;
use dsa::dynamic_programming::knapsack_01;
use dsa::dynamic_programming::knapsack_unbounded;
use dsa::dynamic_programming::max_subarray_sum;
use dsa::dynamic_programming::max_subarray_with_indices;
use dsa::dynamic_programming::climb_stairs;
use dsa::dynamic_programming::house_robber;
use dsa::dynamic_programming::word_break;

#[test]
fn test_fibonacci() {
    assert_eq!(fibonacci(0), 0);
    assert_eq!(fibonacci(1), 1);
    assert_eq!(fibonacci(2), 1);
    assert_eq!(fibonacci(10), 55);
    assert_eq!(fibonacci(20), 6765);
}

#[test]
fn test_fibonacci_memo() {
    let fibs = fibonacci_memo(10);
    assert_eq!(fibs[0], 0);
    assert_eq!(fibs[1], 1);
    assert_eq!(fibs[10], 55);
}

#[test]
fn test_lcs_length() {
    assert_eq!(longest_common_subsequence("abcde", "ace"), 3);
    assert_eq!(longest_common_subsequence("abc", "abc"), 3);
    assert_eq!(longest_common_subsequence("abc", "def"), 0);
}

#[test]
fn test_lcs_string() {
    assert_eq!(lcs_string("abcde", "ace"), "ace");
    assert_eq!(lcs_string("abc", "abc"), "abc");
}

#[test]
fn test_lcs_empty() {
    assert_eq!(longest_common_subsequence("", "abc"), 0);
    assert_eq!(longest_common_subsequence("abc", ""), 0);
}

#[test]
fn test_lis() {
    assert_eq!(longest_increasing_subsequence(&vec![10, 9, 2, 5, 3, 7, 101, 18]), 4);
    assert_eq!(longest_increasing_subsequence(&vec![0, 1, 0, 3, 2, 3]), 4);
    assert_eq!(longest_increasing_subsequence(&vec![7, 7, 7, 7, 7]), 1);
}

#[test]
fn test_lis_empty() {
    assert_eq!(longest_increasing_subsequence(&vec![]), 0);
}

#[test]
fn test_lis_quadratic() {
    assert_eq!(lis_quadratic(&vec![10, 9, 2, 5, 3, 7, 101, 18]), 4);
}

#[test]
fn test_edit_distance() {
    assert_eq!(edit_distance("horse", "ros"), 3);
    assert_eq!(edit_distance("intention", "execution"), 5);
}

#[test]
fn test_edit_distance_empty() {
    assert_eq!(edit_distance("", "abc"), 3);
    assert_eq!(edit_distance("abc", ""), 3);
    assert_eq!(edit_distance("", ""), 0);
}

#[test]
fn test_edit_distance_same() {
    assert_eq!(edit_distance("abc", "abc"), 0);
}

#[test]
fn test_coin_change() {
    assert_eq!(coin_change(&vec![1, 2, 5], 11), 3);
    assert_eq!(coin_change(&vec![2], 3), -1);
    assert_eq!(coin_change(&vec![1], 0), 0);
}

#[test]
fn test_coin_change_ways() {
    assert_eq!(coin_change_ways(&vec![1, 2, 5], 5), 4);
    assert_eq!(coin_change_ways(&vec![2], 3), 0);
}

#[test]
fn test_knapsack_01() {
    let values = vec![60, 100, 120];
    let weights = vec![10, 20, 30];
    assert_eq!(knapsack_01(&values, &weights, 50), 220);
}

#[test]
fn test_knapsack_01_empty() {
    assert_eq!(knapsack_01(&vec![], &vec![], 50), 0);
    assert_eq!(knapsack_01(&vec![10], &vec![5], 0), 0);
}

#[test]
fn test_knapsack_unbounded() {
    let values = vec![1, 30];
    let weights = vec![1, 50];
    assert_eq!(knapsack_unbounded(&values, &weights, 100), 100);
}

#[test]
fn test_max_subarray_sum() {
    assert_eq!(max_subarray_sum(&vec![-2, 1, -3, 4, -1, 2, 1, -5, 4]), 6);
    assert_eq!(max_subarray_sum(&vec![1]), 1);
    assert_eq!(max_subarray_sum(&vec![-1, -2, -3]), -1);
}

#[test]
fn test_max_subarray_with_indices() {
    let (sum, start, end) = max_subarray_with_indices(&vec![-2, 1, -3, 4, -1, 2, 1, -5, 4]);
    assert_eq!(sum, 6);
    assert_eq!(start, 3);
    assert_eq!(end, 6);
}

#[test]
fn test_climb_stairs() {
    assert_eq!(climb_stairs(2), 2);
    assert_eq!(climb_stairs(3), 3);
    assert_eq!(climb_stairs(5), 8);
}

#[test]
fn test_house_robber() {
    assert_eq!(house_robber(&vec![1, 2, 3, 1]), 4);
    assert_eq!(house_robber(&vec![2, 7, 9, 3, 1]), 12);
}

#[test]
fn test_word_break() {
    let dict = vec!["leet", "code"];
    assert!(word_break("leetcode", &dict));

    let dict = vec!["cats", "dog", "sand", "and", "cat"];
    assert!(!word_break("catsandog", &dict));
}
