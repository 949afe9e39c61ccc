use dsa::binary_heap::BinaryHeap;
use dsa::binary_heap::MinHeap;
use dsa::binary_heap::HeapType;

#[test]
fn binary_heap_test_new_max() {
    let heap: BinaryHeap<i32> = BinaryHeap::new_max();
    assert!(heap.is_empty());
    assert_eq!(heap.heap_type(), HeapType::Max);
}

#[test]
fn binary_heap_test_new_min() {
    let heap: BinaryHeap<i32> = BinaryHeap::new_min();
    assert!(heap.is_empty());
    assert_eq!(heap.heap_type(), HeapType::Min);
}

#[test]
fn binary_heap_test_default() {
    let heap: BinaryHeap<i32> = BinaryHeap::default();
    assert!(heap.is_empty());
    assert_eq!(heap.heap_type(), HeapType::Max);
}

#[test]
fn test_from_vec_max() {
    let heap = BinaryHeap::from_vec(vec![3, 1, 4, 1, 5], HeapType::Max);
    assert_eq!(heap.len(), 5);
    assert_eq!(heap.peek(), Some(&5));
    assert!(heap.is_valid());
}

#[test]
fn test_from_vec_min() {
    let heap = BinaryHeap::from_vec(vec![3, 1, 4, 1, 5], HeapType::Min);
    assert_eq!(heap.len(), 5);
    assert_eq!(heap.peek(), Some(&1));
    assert!(heap.is_valid());
}

#[test]
fn test_push_max_heap() {
    let mut heap = BinaryHeap::new_max();
    heap.push(3);
    heap.push(5);
    heap.push(1);
    assert_eq!(heap.peek(), Some(&5));
    assert!(heap.is_valid());
}

#[test]
fn test_push_min_heap() {
    let mut heap = BinaryHeap::new_min();
    heap.push(3);
    heap.push(5);
    heap.push(1);
    assert_eq!(heap.peek(), Some(&1));
    assert!(heap.is_valid());
}

#[test]
fn test_pop_max_heap() {
    let mut heap = BinaryHeap::from_vec(vec![1, 5, 3, 7, 2], HeapType::Max);
    assert_eq!(heap.pop(), Some(7));
    assert_eq!(heap.pop(), Some(5));
    assert_eq!(heap.pop(), Some(3));
    assert_eq!(heap.pop(), Some(2));
    assert_eq!(heap.pop(), Some(1));
    assert_eq!(heap.pop(), None);
}

#[test]
fn test_pop_min_heap() {
    let mut heap = BinaryHeap::from_vec(vec![1, 5, 3, 7, 2], HeapType::Min);
    assert_eq!(heap.pop(), Some(1));
    assert_eq!(heap.pop(), Some(2));
    assert_eq!(heap.pop(), Some(3));
    assert_eq!(heap.pop(), Some(5));
    assert_eq!(heap.pop(), Some(7));
    assert_eq!(heap.pop(), None);
}

#[test]
fn test_push_pop_maintains_validity() {
    let mut heap = BinaryHeap::new_max();
    for i in [5, 3, 7, 1, 9, 2, 8, 4, 6] {
        heap.push(i);
        assert!(heap.is_valid());
    }
    while !heap.is_empty() {
        heap.pop();
        assert!(heap.is_valid());
    }
}

#[test]
fn binary_heap_test_peek() {
    let heap = BinaryHeap::from_vec(vec![1, 5, 3], HeapType::Max);
    assert_eq!(heap.peek(), Some(&5));
}

#[test]
fn test_peek_empty() {
    let heap: BinaryHeap<i32> = BinaryHeap::new();
    assert_eq!(heap.peek(), None);
}

#[test]
fn test_push_pop_larger() {
    let mut heap = BinaryHeap::from_vec(vec![1, 5, 3], HeapType::Max);
    let result = heap.push_pop(10);
    assert_eq!(result, 10); // 10 is larger than max, returned immediately
    assert_eq!(heap.peek(), Some(&5));
}

#[test]
fn test_push_pop_smaller() {
    let mut heap = BinaryHeap::from_vec(vec![1, 5, 3], HeapType::Max);
    let result = heap.push_pop(2);
    assert_eq!(result, 5); // 5 was the max
    assert_eq!(heap.peek(), Some(&3));
}

#[test]
fn binary_heap_test_clear() {
    let mut heap = BinaryHeap::from_vec(vec![1, 2, 3], HeapType::Max);
    heap.clear();
    assert!(heap.is_empty());
}

#[test]
fn test_into_sorted_vec() {
    let heap = BinaryHeap::from_vec(vec![3, 1, 4, 1, 5], HeapType::Max);
    let sorted = heap.into_sorted_vec();
    assert_eq!(sorted, vec![5, 4, 3, 1, 1]);
}

#[test]
fn binary_heap_test_into_vec() {
    let heap = BinaryHeap::from_vec(vec![3, 1, 4], HeapType::Max);
    let vec = heap.into_vec();
    assert_eq!(vec.len(), 3);
}

#[test]
fn binary_heap_test_iter() {
    let heap = BinaryHeap::from_vec(vec![1, 2, 3], HeapType::Max);
    let sum: i32 = heap.iter().into_iter().sum();
    assert_eq!(sum, 6);
}

#[test]
fn test_min_heap_new() {
    let heap: MinHeap<i32> = MinHeap::new();
    assert!(heap.is_empty());
}

#[test]
fn test_min_heap_push_pop() {
    let mut heap = MinHeap::new();
    heap.push(3);
    heap.push(1);
    heap.push(4);
    assert_eq!(heap.peek(), Some(&1));
    assert_eq!(heap.pop(), Some(1));
    assert_eq!(heap.pop(), Some(3));
}

#[test]
fn test_min_heap_from_vec() {
    let heap = MinHeap::from_vec(vec![5, 3, 7, 1, 9]);
    assert_eq!(heap.peek(), Some(&1));
}

#[test]
fn binary_heap_test_single_element() {
    let mut heap = BinaryHeap::from_vec(vec![42], HeapType::Max);
    assert_eq!(heap.peek(), Some(&42));
    assert_eq!(heap.pop(), Some(42));
    assert!(heap.is_empty());
}

#[test]
fn binary_heap_test_duplicates() {
    let mut heap = BinaryHeap::from_vec(vec![5, 5, 5, 5], HeapType::Max);
    assert_eq!(heap.pop(), Some(5));
    assert_eq!(heap.pop(), Some(5));
    assert!(heap.is_valid());
}

#[test]
fn binary_heap_test_negative_values() {
    let mut heap = BinaryHeap::from_vec(vec![-5, -3, -7, -1, -9], HeapType::Max);
    assert_eq!(heap.pop(), Some(-1));
    assert_eq!(heap.pop(), Some(-3));
}

#[test]
fn test_large_heap() {
    let mut heap = BinaryHeap::new_max();
    for i in 0..1000 {
        heap.push(i);
    }
    assert_eq!(heap.len(), 1000);
    assert_eq!(heap.peek(), Some(&999));
    assert!(heap.is_valid());
}

#[test]
fn test_ascending_order() {
    let mut heap = BinaryHeap::new_max();
    for i in 1..=10 {
        heap.push(i);
    }
    let mut prev = heap.pop().unwrap();
    while let Some(val) = heap.pop() {
        assert!(prev >= val);
        prev = val;
    }
}

#[test]
fn test_descending_order() {
    let mut heap = BinaryHeap::new_max();
    for i in (1..=10).rev() {
        heap.push(i);
    }
    let mut prev = heap.pop().unwrap();
    while let Some(val) = heap.pop() {
        assert!(prev >= val);
        prev = val;
    }
}
