use dsa::deque::Deque;

#[test]
fn deque_test_new() {
    let deque: Deque<i32> = Deque::new();
    assert!(deque.is_empty());
    assert_eq!(deque.len(), 0);
}

#[test]
fn deque_test_with_capacity() {
    let deque: Deque<i32> = Deque::with_capacity(10);
    assert!(deque.is_empty());
}

#[test]
fn deque_test_default() {
    let deque: Deque<i32> = Deque::default();
    assert!(deque.is_empty());
}

#[test]
fn deque_test_from_vec() {
    let deque = Deque::from_vec(vec![1, 2, 3]);
    assert_eq!(deque.len(), 3);
    assert_eq!(deque.front(), Some(&1));
    assert_eq!(deque.back(), Some(&3));
}

#[test]
fn deque_test_to_vec() {
    let deque = Deque::from_vec(vec![1, 2, 3]);
    assert_eq!(deque.to_vec(), vec![1, 2, 3]);
}

#[test]
fn deque_test_clone() {
    let deque = Deque::from_vec(vec![1, 2, 3]);
    let cloned = deque.clone();
    assert_eq!(deque, cloned);
}

#[test]
fn deque_test_push_front() {
    let mut deque = Deque::new();
    deque.push_front(3);
    deque.push_front(2);
    deque.push_front(1);
    assert_eq!(deque.to_vec(), vec![1, 2, 3]);
}

#[test]
fn deque_test_push_back() {
    let mut deque = Deque::new();
    deque.push_back(1);
    deque.push_back(2);
    deque.push_back(3);
    assert_eq!(deque.to_vec(), vec![1, 2, 3]);
}

#[test]
fn deque_test_pop_front() {
    let mut deque = Deque::from_vec(vec![1, 2, 3]);
    assert_eq!(deque.pop_front(), Some(1));
    assert_eq!(deque.pop_front(), Some(2));
    assert_eq!(deque.pop_front(), Some(3));
    assert_eq!(deque.pop_front(), None);
}

#[test]
fn deque_test_pop_back() {
    let mut deque = Deque::from_vec(vec![1, 2, 3]);
    assert_eq!(deque.pop_back(), Some(3));
    assert_eq!(deque.pop_back(), Some(2));
    assert_eq!(deque.pop_back(), Some(1));
    assert_eq!(deque.pop_back(), None);
}

#[test]
fn deque_test_mixed_operations() {
    let mut deque = Deque::new();
    deque.push_back(2);
    deque.push_front(1);
    deque.push_back(3);
    deque.push_front(0);
    assert_eq!(deque.to_vec(), vec![0, 1, 2, 3]);

    assert_eq!(deque.pop_front(), Some(0));
    assert_eq!(deque.pop_back(), Some(3));
    assert_eq!(deque.to_vec(), vec![1, 2]);
}

#[test]
fn test_front() {
    let deque = Deque::from_vec(vec![1, 2, 3]);
    assert_eq!(deque.front(), Some(&1));
}

#[test]
fn test_front_empty() {
    let deque: Deque<i32> = Deque::new();
    assert_eq!(deque.front(), None);
}

#[test]
fn deque_test_back() {
    let deque = Deque::from_vec(vec![1, 2, 3]);
    assert_eq!(deque.back(), Some(&3));
}

#[test]
fn test_back_empty() {
    let deque: Deque<i32> = Deque::new();
    assert_eq!(deque.back(), None);
}

#[test]
fn deque_test_get() {
    let deque = Deque::from_vec(vec![1, 2, 3]);
    assert_eq!(deque.get(0), Some(&1));
    assert_eq!(deque.get(1), Some(&2));
    assert_eq!(deque.get(2), Some(&3));
    assert_eq!(deque.get(3), None);
}

