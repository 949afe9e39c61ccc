use dsa::dynamic_array::DynamicArray;
use dsa::error::DsaError;
use dsa::dynamic_programming::fibonacci;
use dsa::dynamic_programming::climb_stairs;
use dsa::dynamic_programming::lcs_string;
use dsa::strings::is_palindrome;
use dsa::strings::longest_palindromic_substring;
use dsa::sorting::counting_sort;
use dsa::sorting::counting_sort_i32;
use dsa::stack::Stack;
use dsa::queue::Queue;
use dsa::monotonic_queue::sliding_window_maximum;
use dsa::monotonic_queue::sliding_window_minimum;

#[test]
fn dynamic_array_reports_out_of_bounds() {
    let mut arr: DynamicArray<i32> = DynamicArray::new();
    arr.push(1);
    assert_eq!(arr.set(5, 9), Err(DsaError::IndexOutOfBounds { index: 5, size: 1 }));
    assert_eq!(arr.insert(3, 9), Err(DsaError::IndexOutOfBounds { index: 3, size: 1 }));
    assert_eq!(arr.remove(2), Err(DsaError::IndexOutOfBounds { index: 2, size: 1 }));
    assert_eq!(arr.set(0, 9), Ok(()));
    assert_eq!(arr.get(0), Some(&9));
    assert_eq!(arr.remove(0), Ok(9));
    assert!(arr.is_empty());
}

#[test]
fn fibonacci_known_values() {
    assert_eq!(fibonacci(30), 832040);
    assert_eq!(fibonacci(90), 2880067194370816120);
    // beyond the largest representable value the count saturates
    assert_eq!(fibonacci(200), u64::MAX);
}

#[test]
fn climb_stairs_known_values() {
    assert_eq!(climb_stairs(0), 0);
    assert_eq!(climb_stairs(5), 8);
    assert_eq!(climb_stairs(45), 1836311903);
}

#[test]
fn lcs_string_builds_a_real_string() {
    // would fail if appending characters left the string unchanged
    assert_eq!(lcs_string("abcde", "ace"), "ace");
    assert_eq!(lcs_string("", "ace"), "");
}

#[test]
fn palindrome_check_folds_case_and_symbols() {
    // would fail if the case fold or the alphanumeric filter did nothing
    assert!(is_palindrome("A man, a plan, a canal: Panama"));
    assert!(!is_palindrome("race a car"));
    assert_eq!(longest_palindromic_substring("cbbd"), "bb");
}

#[test]
fn counting_sorts_handle_bounds() {
    let mut a: Vec<u32> = vec![3, 0, 2, 0, 1];
    counting_sort(&mut a);
    assert_eq!(a, vec![0, 0, 1, 2, 3]);
    let mut b: Vec<i32> = vec![0, -7, 1, -2, 5];
    counting_sort_i32(&mut b);
    assert_eq!(b, vec![-7, -2, 0, 1, 5]);
}

#[test]
fn stack_and_queue_round_trip() {
    let mut s = Stack::new();
    s.push(1);
    s.push(2);
    assert_eq!(s.iter_from_top(), vec![2, 1]);
    assert_eq!(s.search(&1), Some(2));
    assert_eq!(s.pop(), Some(2));
    assert_eq!(s.peek(), Some(&1));

    let mut q = Queue::new();
    q.enqueue(1);
    q.enqueue(2);
    assert_eq!(q.peek(), Some(&1));
    assert_eq!(q.back(), Some(&2));
    assert_eq!(q.dequeue(), Some(1));
    assert_eq!(q.to_vec(), vec![2]);
}

#[test]
fn sliding_window_extremes_match_by_hand() {
    let arr = vec![1, 3, -1, -3, 5, 3, 6, 7];
    assert_eq!(sliding_window_maximum(&arr, 3), vec![3, 3, 5, 5, 6, 7]);
    assert_eq!(sliding_window_minimum(&arr, 3), vec![-1, -3, -3, -3, 3, 3]);
}
