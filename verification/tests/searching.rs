use dsa::searching::binary_search;
use dsa::searching::lower_bound;
use dsa::searching::upper_bound;
use dsa::searching::binary_search_first;
use dsa::searching::binary_search_last;
use dsa::searching::count_occurrences;
use dsa::searching::two_sum_sorted;
use dsa::searching::three_sum;
use dsa::searching::remove_duplicates;
use dsa::searching::container_with_most_water;
use dsa::searching::trap_water;
use dsa::searching::max_sum_subarray;
use dsa::searching::longest_substring_without_repeating;
use dsa::searching::min_window_substring;
use dsa::searching::longest_substring_k_distinct;

#[test]
fn test_binary_search_found() {
    let arr = vec![1, 3, 5, 7, 9, 11, 13];
    assert_eq!(binary_search(&arr, &7), Some(3));
    assert_eq!(binary_search(&arr, &1), Some(0));
    assert_eq!(binary_search(&arr, &13), Some(6));
}

#[test]
fn test_binary_search_not_found() {
    let arr = vec![1, 3, 5, 7, 9, 11, 13];
    assert_eq!(binary_search(&arr, &6), None);
    assert_eq!(binary_search(&arr, &0), None);
    assert_eq!(binary_search(&arr, &14), None);
}

#[test]
fn test_binary_search_empty() {
    let arr: Vec<i32> = vec![];
    assert_eq!(binary_search(&arr, &5), None);
}

#[test]
fn test_binary_search_single() {
    let arr = vec![5];
    assert_eq!(binary_search(&arr, &5), Some(0));
    assert_eq!(binary_search(&arr, &3), None);
}

#[test]
fn mod_test_lower_bound() {
    let arr = vec![1, 2, 4, 4, 4, 6, 8];
    assert_eq!(lower_bound(&arr, &4), 2);
    assert_eq!(lower_bound(&arr, &5), 5);
    assert_eq!(lower_bound(&arr, &0), 0);
    assert_eq!(lower_bound(&arr, &10), 7);
}

#[test]
fn test_upper_bound() {
    let arr = vec![1, 2, 4, 4, 4, 6, 8];
    assert_eq!(upper_bound(&arr, &4), 5);
    assert_eq!(upper_bound(&arr, &3), 2);
    assert_eq!(upper_bound(&arr, &10), 7);
}

#[test]
fn test_first_last_occurrence() {
    let arr = vec![1, 2, 4, 4, 4, 6, 8];
    assert_eq!(binary_search_first(&arr, &4), Some(2));
    assert_eq!(binary_search_last(&arr, &4), Some(4));
    assert_eq!(binary_search_first(&arr, &5), None);
    assert_eq!(binary_search_last(&arr, &5), None);
}

#[test]
fn test_count_occurrences() {
    let arr = vec![1, 2, 4, 4, 4, 6, 8];
    assert_eq!(count_occurrences(&arr, &4), 3);
    assert_eq!(count_occurrences(&arr, &1), 1);
    assert_eq!(count_occurrences(&arr, &5), 0);
}

#[test]
fn test_two_sum_sorted() {
    let arr = vec![2, 7, 11, 15];
    assert_eq!(two_sum_sorted(&arr, 9), Some((0, 1)));
    assert_eq!(two_sum_sorted(&arr, 18), Some((1, 2)));
    assert_eq!(two_sum_sorted(&arr, 10), None);
}

#[test]
fn test_three_sum() {
    let mut arr = vec![-1, 0, 1, 2, -1, -4];
    let result = three_sum(&mut arr, 0);
    assert_eq!(result.len(), 2);
    assert!(result.contains(&vec![-1, -1, 2]));
    assert!(result.contains(&vec![-1, 0, 1]));
}

#[test]
fn test_three_sum_no_result() {
    let mut arr = vec![1, 2, 3];
    let result = three_sum(&mut arr, 0);
    assert!(result.is_empty());
}

#[test]
fn test_remove_duplicates() {
    let mut arr = vec![1, 1, 2, 2, 3, 4, 4, 5];
    let len = remove_duplicates(&mut arr);
    assert_eq!(len, 5);
    assert_eq!(&arr[..len], &vec![1, 2, 3, 4, 5]);
}

#[test]
fn test_remove_duplicates_all_same() {
    let mut arr = vec![1, 1, 1, 1];
    let len = remove_duplicates(&mut arr);
    assert_eq!(len, 1);
}

#[test]
fn test_container_with_most_water() {
    let heights = vec![1, 8, 6, 2, 5, 4, 8, 3, 7];
    assert_eq!(container_with_most_water(&heights), 49);
}

#[test]
fn test_trap_water() {
    let heights = vec![0, 1, 0, 2, 1, 0, 1, 3, 2, 1, 2, 1];
    assert_eq!(trap_water(&heights), 6);
}

#[test]
fn test_trap_water_empty() {
    assert_eq!(trap_water(&vec![]), 0);
    assert_eq!(trap_water(&vec![1, 2]), 0);
}

#[test]
fn test_max_sum_subarray() {
    let arr = vec![1, 4, 2, 10, 23, 3, 1, 0, 20];
    assert_eq!(max_sum_subarray(&arr, 4), Some(39));
}

#[test]
fn test_max_sum_subarray_edge() {
    assert_eq!(max_sum_subarray(&vec![], 1), None);
    assert_eq!(max_sum_subarray(&vec![1, 2, 3], 0), None);
    assert_eq!(max_sum_subarray(&vec![1, 2], 5), None);
}

#[test]
fn test_longest_substring_without_repeating() {
    assert_eq!(longest_substring_without_repeating("abcabcbb"), 3);
    assert_eq!(longest_substring_without_repeating("bbbbb"), 1);
    assert_eq!(longest_substring_without_repeating("pwwkew"), 3);
    assert_eq!(longest_substring_without_repeating(""), 0);
}

#[test]
fn test_min_window_substring() {
    assert_eq!(
        min_window_substring("ADOBECODEBANC", "ABC"),
        Some("BANC".to_string())
    );
    assert_eq!(min_window_substring("a", "a"), Some("a".to_string()));
    assert_eq!(min_window_substring("a", "aa"), None);
}

#[test]
fn test_longest_substring_k_distinct() {
    assert_eq!(longest_substring_k_distinct("eceba", 2), 3);
    assert_eq!(longest_substring_k_distinct("aa", 1), 2);
    assert_eq!(longest_substring_k_distinct("abc", 0), 0);
}
