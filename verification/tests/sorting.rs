use dsa::sorting::bubble_sort;
use dsa::sorting::selection_sort;
use dsa::sorting::insertion_sort;
use dsa::sorting::merge_sort;
use dsa::sorting::quick_sort;
use dsa::sorting::heap_sort;
use dsa::sorting::counting_sort;
use dsa::sorting::counting_sort_i32;
use dsa::sorting::radix_sort;
use dsa::sorting::is_sorted;

fn test_all_sorts(arr: &[i32]) {
    let mut arr1 = arr.to_vec();
    let mut arr2 = arr.to_vec();
    let mut arr3 = arr.to_vec();
    let mut arr4 = arr.to_vec();
    let mut arr5 = arr.to_vec();
    let mut arr6 = arr.to_vec();
    bubble_sort(&mut arr1);
    selection_sort(&mut arr2);
    insertion_sort(&mut arr3);
    merge_sort(&mut arr4);
    quick_sort(&mut arr5);
    heap_sort(&mut arr6);
    assert_eq!(arr1, arr2);
    assert_eq!(arr2, arr3);
    assert_eq!(arr3, arr4);
    assert_eq!(arr4, arr5);
    assert_eq!(arr5, arr6);
    assert!(is_sorted(&arr1));
}

#[test]
fn mod_test_empty() {
    let mut arr: Vec<i32> = vec![];
    bubble_sort(&mut arr);
    assert_eq!(arr, vec![]);
    {
        let mut arr: Vec<i32> = vec![];
        insertion_sort(&mut arr);
        assert_eq!(arr, vec![]);
    }
    {
        let mut arr: Vec<i32> = vec![];
        merge_sort(&mut arr);
        assert_eq!(arr, vec![]);
    }
    {
        let mut arr: Vec<i32> = vec![];
        quick_sort(&mut arr);
        assert_eq!(arr, vec![]);
    }
    {
        let mut arr: Vec<i32> = vec![];
        heap_sort(&mut arr);
        assert_eq!(arr, vec![]);
    }
    {
        let mut arr: Vec<u32> = vec![];
        counting_sort(&mut arr);
        assert_eq!(arr, vec![]);
    }
    {
        let mut arr: Vec<u32> = vec![];
        radix_sort(&mut arr);
        assert_eq!(arr, vec![]);
    }
    {
        assert!(is_sorted::<i32>(&vec![]));
    }
}

#[test]
fn mod_test_single() {
    let mut arr = vec![1];
    bubble_sort(&mut arr);
    assert_eq!(arr, vec![1]);
    {
        let mut arr = vec![1];
        insertion_sort(&mut arr);
        assert_eq!(arr, vec![1]);
    }
    {
        let mut arr = vec![1];
        merge_sort(&mut arr);
        assert_eq!(arr, vec![1]);
    }
    {
        let mut arr = vec![1];
        quick_sort(&mut arr);
        assert_eq!(arr, vec![1]);
    }
    {
        let mut arr = vec![1];
        heap_sort(&mut arr);
        assert_eq!(arr, vec![1]);
    }
    {
        let mut arr = vec![1u32];
        counting_sort(&mut arr);
        assert_eq!(arr, vec![1]);
    }
    {
        let mut arr = vec![1u32];
        radix_sort(&mut arr);
        assert_eq!(arr, vec![1]);
    }
    {
        assert!(is_sorted(&vec![1]));
    }
}

#[test]
fn mod_test_sorted() {
    let mut arr = vec![1, 2, 3, 4, 5];
    bubble_sort(&mut arr);
    assert_eq!(arr, vec![1, 2, 3, 4, 5]);
    {
        let mut arr = vec![1, 2, 3, 4, 5];
        insertion_sort(&mut arr);
        assert_eq!(arr, vec![1, 2, 3, 4, 5]);
    }
    {
        let mut arr = vec![1, 2, 3, 4, 5];
        merge_sort(&mut arr);
        assert_eq!(arr, vec![1, 2, 3, 4, 5]);
    }
    {
        let mut arr = vec![1, 2, 3, 4, 5];
        quick_sort(&mut arr);
        assert_eq!(arr, vec![1, 2, 3, 4, 5]);
    }
    {
        let mut arr = vec![1, 2, 3, 4, 5];
        heap_sort(&mut arr);
        assert_eq!(arr, vec![1, 2, 3, 4, 5]);
    }
    {
        assert!(is_sorted(&vec![1, 2, 3, 4, 5]));
    }
}

#[test]
fn mod_test_reverse() {
    let mut arr = vec![5, 4, 3, 2, 1];
    bubble_sort(&mut arr);
    assert_eq!(arr, vec![1, 2, 3, 4, 5]);
    {
        let mut arr = vec![5, 4, 3, 2, 1];
        insertion_sort(&mut arr);
        assert_eq!(arr, vec![1, 2, 3, 4, 5]);
    }
    {
        let mut arr = vec![5, 4, 3, 2, 1];
        merge_sort(&mut arr);
        assert_eq!(arr, vec![1, 2, 3, 4, 5]);
    }
    {
        let mut arr = vec![5, 4, 3, 2, 1];
        quick_sort(&mut arr);
        assert_eq!(arr, vec![1, 2, 3, 4, 5]);
    }
    {
        let mut arr = vec![5, 4, 3, 2, 1];
        heap_sort(&mut arr);
        assert_eq!(arr, vec![1, 2, 3, 4, 5]);
    }
    {
        assert!(!is_sorted(&vec![5, 4, 3, 2, 1]));
    }
}

#[test]
fn mod_test_random() {
    let mut arr = vec![64, 34, 25, 12, 22, 11, 90];
    bubble_sort(&mut arr);
    assert_eq!(arr, vec![11, 12, 22, 25, 34, 64, 90]);
    {
        let mut arr = vec![12, 11, 13, 5, 6];
        insertion_sort(&mut arr);
        assert_eq!(arr, vec![5, 6, 11, 12, 13]);
    }
    {
        let mut arr = vec![38, 27, 43, 3, 9, 82, 10];
        merge_sort(&mut arr);
        assert_eq!(arr, vec![3, 9, 10, 27, 38, 43, 82]);
    }
    {
        let mut arr = vec![10, 7, 8, 9, 1, 5];
        quick_sort(&mut arr);
        assert_eq!(arr, vec![1, 5, 7, 8, 9, 10]);
    }
    {
        let mut arr = vec![12, 11, 13, 5, 6, 7];
        heap_sort(&mut arr);
        assert_eq!(arr, vec![5, 6, 7, 11, 12, 13]);
    }
}

#[test]
fn mod_test_duplicates() {
    let mut arr = vec![3, 1, 4, 1, 5, 9, 2, 6, 5, 3];
    bubble_sort(&mut arr);
    assert_eq!(arr, vec![1, 1, 2, 3, 3, 4, 5, 5, 6, 9]);
    {
        assert!(is_sorted(&vec![1, 1, 2, 2, 3, 3]));
    }
}

#[test]
fn test_empty() {
    let mut arr: Vec<i32> = vec![];
    selection_sort(&mut arr);
    assert_eq!(arr, vec![]);
}

#[test]
fn test_single() {
    let mut arr = vec![1];
    selection_sort(&mut arr);
    assert_eq!(arr, vec![1]);
}

#[test]
fn test_sorted() {
    let mut arr = vec![1, 2, 3, 4, 5];
    selection_sort(&mut arr);
    assert_eq!(arr, vec![1, 2, 3, 4, 5]);
}

#[test]
fn test_reverse() {
    let mut arr = vec![5, 4, 3, 2, 1];
    selection_sort(&mut arr);
    assert_eq!(arr, vec![1, 2, 3, 4, 5]);
}

#[test]
fn test_random() {
    let mut arr = vec![64, 25, 12, 22, 11];
    selection_sort(&mut arr);
    assert_eq!(arr, vec![11, 12, 22, 25, 64]);
}

#[test]
fn test_stability() {
    // Merge sort should be stable
    let mut arr = vec![3, 1, 4, 1, 5, 9, 2, 6, 5, 3];
    merge_sort(&mut arr);
    assert_eq!(arr, vec![1, 1, 2, 3, 3, 4, 5, 5, 6, 9]);
}

#[test]
fn test_duplicates() {
    let mut arr = vec![3, 3, 3, 1, 1, 2, 2];
    quick_sort(&mut arr);
    assert_eq!(arr, vec![1, 1, 2, 2, 3, 3, 3]);
}

#[test]
fn mod_test_two_elements() {
    let mut arr = vec![2, 1];
    quick_sort(&mut arr);
    assert_eq!(arr, vec![1, 2]);
}

#[test]
fn mod_test_basic() {
    let mut arr = vec![4u32, 2, 2, 8, 3, 3, 1];
    counting_sort(&mut arr);
    assert_eq!(arr, vec![1, 2, 2, 3, 3, 4, 8]);
}

#[test]
fn test_all_same() {
    let mut arr = vec![5u32, 5, 5, 5, 5];
    counting_sort(&mut arr);
    assert_eq!(arr, vec![5, 5, 5, 5, 5]);
}

#[test]
fn test_i32_with_negatives() {
    let mut arr = vec![4, -2, 2, 8, -3, 3, 1];
    counting_sort_i32(&mut arr);
    assert_eq!(arr, vec![-3, -2, 1, 2, 3, 4, 8]);
}

#[test]
fn test_basic() {
    let mut arr = vec![170u32, 45, 75, 90, 802, 24, 2, 66];
    radix_sort(&mut arr);
    assert_eq!(arr, vec![2, 24, 45, 66, 75, 90, 170, 802]);
}

#[test]
fn test_large_numbers() {
    let mut arr = vec![1000000u32, 100000, 10000, 1000, 100, 10, 1];
    radix_sort(&mut arr);
    assert_eq!(arr, vec![1, 10, 100, 1000, 10000, 100000, 1000000]);
}

#[test]
fn test_same_digit_count() {
    let mut arr = vec![123u32, 456, 789, 234, 567, 890];
    radix_sort(&mut arr);
    assert_eq!(arr, vec![123, 234, 456, 567, 789, 890]);
}

#[test]
fn test_unsorted() {
    assert!(!is_sorted(&vec![1, 3, 2, 4, 5]));
}

#[test]
fn test_comparison_empty() {
    test_all_sorts(&[]);
}

#[test]
fn test_comparison_single() {
    test_all_sorts(&[42]);
}

#[test]
fn test_comparison_random() {
    test_all_sorts(&[64, 34, 25, 12, 22, 11, 90, 1, 100, 50]);
}

#[test]
fn test_comparison_sorted() {
    test_all_sorts(&[1, 2, 3, 4, 5, 6, 7, 8, 9, 10]);
}

#[test]
fn test_comparison_reverse() {
    test_all_sorts(&[10, 9, 8, 7, 6, 5, 4, 3, 2, 1]);
}

#[test]
fn test_comparison_duplicates() {
    test_all_sorts(&[5, 2, 8, 2, 9, 1, 5, 8, 3, 1]);
}
