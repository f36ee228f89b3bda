use dataflow::CircularVecDeque;

#[test]
fn new_queue_is_empty() {
    let q: CircularVecDeque<i32> = CircularVecDeque::new(3);
    assert!(q.is_empty());
    assert_eq!(q.len(), 0);
    assert!(!q.is_full());
}

#[test]
fn push_back_drops_the_front_when_full() {
    let mut q = CircularVecDeque::new(3);
    q.push_back(1);
    q.push_back(2);
    q.push_back(3);
    assert!(q.is_full());
    q.push_back(4);
    assert_eq!(q.len(), 3);
    assert_eq!(q.get(0), Some(&2));
    assert_eq!(q.get(1), Some(&3));
    assert_eq!(q.get(2), Some(&4));
    assert_eq!(q.get(3), None);
}

#[test]
fn push_front_drops_the_back_when_full() {
    let mut q = CircularVecDeque::new(3);
    q.push_front(1);
    q.push_front(2);
    q.push_front(3);
    q.push_front(4);
    assert_eq!(q.len(), 3);
    assert_eq!(q.get(0), Some(&4));
    assert_eq!(q.get(1), Some(&3));
    assert_eq!(q.get(2), Some(&2));
}

#[test]
fn pop_takes_from_either_end() {
    let mut q = CircularVecDeque::new(4);
    q.push_back(1);
    q.push_back(2);
    q.push_back(3);
    assert_eq!(q.pop_front(), Some(1));
    assert_eq!(q.pop_back(), Some(3));
    assert_eq!(q.pop_back(), Some(2));
    assert_eq!(q.pop_back(), None);
    assert_eq!(q.pop_front(), None);
}

#[test]
fn last_names_the_back_element() {
    let mut q = CircularVecDeque::new(2);
    assert_eq!(q.last(), None);
    q.push_back(7);
    q.push_back(8);
    assert_eq!(q.last(), Some(&8));
}

#[test]
fn get_mut_applies_the_update_in_place() {
    let mut q = CircularVecDeque::new(3);
    q.push_back(10);
    q.push_back(20);
    assert!(q.get_mut(1, |x: &i32| x + 5));
    assert_eq!(q.get(1), Some(&25));
    assert_eq!(q.get(0), Some(&10));
    assert!(!q.get_mut(9, |x: &i32| x + 5));
}

#[test]
fn with_last_n_elems_updates_the_tail() {
    let mut q = CircularVecDeque::new(5);
    for i in 1..=4 {
        q.push_back(i);
    }
    q.with_last_n_elems(2, |x: &i32| x * 10);
    assert_eq!(q.get(0), Some(&1));
    assert_eq!(q.get(1), Some(&2));
    assert_eq!(q.get(2), Some(&30));
    assert_eq!(q.get(3), Some(&40));
    // Asking for more elements than held updates them all.
    q.with_last_n_elems(100, |x: &i32| x + 1);
    assert_eq!(q.get(0), Some(&2));
    assert_eq!(q.get(3), Some(&41));
}

#[test]
fn with_last_nth_elem_updates_one_from_the_back() {
    let mut q = CircularVecDeque::new(5);
    for i in 1..=3 {
        q.push_back(i);
    }
    q.with_last_nth_elem(0, |x: &i32| x + 100);
    assert_eq!(q.get(2), Some(&103));
    q.with_last_nth_elem(2, |x: &i32| x + 100);
    assert_eq!(q.get(0), Some(&101));
    // An index past the front is ignored.
    q.with_last_nth_elem(7, |x: &i32| x + 100);
    assert_eq!(q.get(0), Some(&101));
    assert_eq!(q.get(1), Some(&2));
}

#[test]
fn zero_capacity_is_never_full_after_a_push() {
    let mut q = CircularVecDeque::new(0);
    assert!(q.is_full());
    q.push_back(1);
    assert_eq!(q.len(), 1);
    assert!(!q.is_full());
}
