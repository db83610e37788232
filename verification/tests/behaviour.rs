use max_heap::Heap;
use std::cmp::Ordering;

/// An element ordered by `key` alone; `tag` tells equal keys apart.
#[derive(Debug, Clone, Copy)]
struct Keyed {
    key: i32,
    tag: char,
}

impl PartialEq for Keyed {
    fn eq(&self, other: &Keyed) -> bool {
        self.key == other.key
    }
}

impl PartialOrd for Keyed {
    fn partial_cmp(&self, other: &Keyed) -> Option<Ordering> {
        self.key.partial_cmp(&other.key)
    }
}

fn keyed(key: i32, tag: char) -> Keyed {
    Keyed { key, tag }
}

fn tags(heap: &Heap<Keyed>) -> Vec<char> {
    heap.as_slice().iter().map(|e| e.tag).collect()
}

fn heap_of(values: &[i32]) -> Heap<i32> {
    let mut heap = Heap::new();
    for v in values {
        heap.push(*v);
    }
    heap
}

fn drain(heap: &mut Heap<i32>) -> Vec<i32> {
    let mut out = Vec::new();
    while let Some(v) = heap.pop() {
        out.push(v);
    }
    out
}

fn in_heap_order(list: &[i32]) -> bool {
    (1..list.len()).all(|i| list[(i - 1) / 2] >= list[i])
}

#[test]
fn new_heap_is_empty() {
    let heap: Heap<i32> = Heap::new();
    assert!(heap.as_slice().is_empty());
    assert_eq!(heap.peek(), None);
}

#[test]
fn peek_returns_maximum_without_removing() {
    let heap = heap_of(&[4, 9, 2]);
    assert_eq!(heap.peek(), Some(&9));
    assert_eq!(heap.peek(), Some(&9));
    assert_eq!(heap.as_slice().len(), 3);
}

#[test]
fn single_element_push_and_pop() {
    let mut heap = Heap::new();
    heap.push(42);
    assert_eq!(heap.as_slice(), vec![42]);
    assert_eq!(heap.peek(), Some(&42));
    assert_eq!(heap.pop(), Some(42));
    assert!(heap.as_slice().is_empty());
    assert_eq!(heap.peek(), None);
}

#[test]
fn ascending_pushes_sift_to_the_root() {
    let mut heap = Heap::new();
    heap.push(1);
    assert_eq!(heap.as_slice(), vec![1]);
    heap.push(2);
    assert_eq!(heap.as_slice(), vec![2, 1]);
    heap.push(3);
    assert_eq!(heap.as_slice(), vec![3, 1, 2]);
    heap.push(4);
    assert_eq!(heap.as_slice(), vec![4, 3, 2, 1]);
    heap.push(5);
    assert_eq!(heap.as_slice(), vec![5, 4, 2, 1, 3]);
    heap.push(6);
    assert_eq!(heap.as_slice(), vec![6, 4, 5, 1, 3, 2]);
    heap.push(7);
    assert_eq!(heap.as_slice(), vec![7, 4, 6, 1, 3, 2, 5]);
}

#[test]
fn pop_sifts_the_last_element_down() {
    let mut heap = heap_of(&[1, 2, 3, 4, 5, 6, 7]);
    assert_eq!(heap.pop(), Some(7));
    assert_eq!(heap.as_slice(), vec![6, 4, 5, 1, 3, 2]);
    assert_eq!(heap.pop(), Some(6));
    assert_eq!(heap.as_slice(), vec![5, 4, 2, 1, 3]);
}

#[test]
fn descending_push_does_not_move() {
    let heap = heap_of(&[5, 4, 3, 2, 1]);
    assert_eq!(heap.as_slice(), vec![5, 4, 3, 2, 1]);
}

#[test]
fn heap_order_holds_after_every_operation() {
    let mut heap = Heap::new();
    for v in [5, 3, 8, 1, 9, 2, 8, 5] {
        heap.push(v);
        assert!(in_heap_order(heap.as_slice()));
    }
    assert_eq!(heap.as_slice(), vec![9, 8, 8, 5, 3, 2, 5, 1]);
    assert_eq!(heap.pop(), Some(9));
    assert_eq!(heap.as_slice(), vec![8, 5, 8, 1, 3, 2, 5]);
    assert!(in_heap_order(heap.as_slice()));
    heap.push(7);
    assert!(in_heap_order(heap.as_slice()));
    while heap.pop().is_some() {
        assert!(in_heap_order(heap.as_slice()));
    }
}

#[test]
fn size_follows_pushes_and_pops() {
    let mut heap = Heap::new();
    assert_eq!(heap.as_slice().len(), 0);
    heap.push(10);
    heap.push(20);
    heap.push(30);
    heap.push(40);
    assert_eq!(heap.as_slice().len(), 4);
    assert_eq!(heap.pop(), Some(40));
    assert_eq!(heap.as_slice().len(), 3);
    heap.push(5);
    assert_eq!(heap.as_slice().len(), 4);
    assert_eq!(heap.pop(), Some(30));
    assert_eq!(heap.pop(), Some(20));
    assert_eq!(heap.as_slice().len(), 2);
}

#[test]
fn pops_come_out_in_descending_order() {
    let mut heap = heap_of(&[5, 3, 8, 1, 9, 2, 8, 5]);
    assert_eq!(drain(&mut heap), vec![9, 8, 8, 5, 5, 3, 2, 1]);
    assert!(heap.as_slice().is_empty());
}

#[test]
fn round_trip_sorts_descending() {
    let values: Vec<i32> = vec![0, -7, 12, 3, 3, 100, -7, 55, 1];
    let mut expected = values.clone();
    expected.sort();
    expected.reverse();
    let mut heap = heap_of(&values);
    assert_eq!(drain(&mut heap), expected);
}

#[test]
fn round_trip_of_nothing() {
    let mut heap = heap_of(&[]);
    assert_eq!(drain(&mut heap), Vec::<i32>::new());
}

#[test]
fn pop_on_empty_is_repeatable() {
    let mut heap: Heap<i32> = Heap::new();
    for _ in 0..5 {
        assert_eq!(heap.pop(), None);
        assert!(heap.as_slice().is_empty());
        assert_eq!(heap.peek(), None);
    }
    heap.push(1);
    assert_eq!(heap.pop(), Some(1));
    assert_eq!(heap.pop(), None);
    assert_eq!(heap.pop(), None);
}

#[test]
fn equal_elements_are_not_exchanged_on_push() {
    let mut heap = Heap::new();
    heap.push(keyed(5, 'a'));
    heap.push(keyed(5, 'b'));
    heap.push(keyed(5, 'c'));
    assert_eq!(tags(&heap), vec!['a', 'b', 'c']);
}

#[test]
fn equal_child_does_not_replace_the_root() {
    let mut heap = Heap::new();
    heap.push(keyed(5, 'a'));
    heap.push(keyed(5, 'b'));
    heap.push(keyed(5, 'c'));
    assert_eq!(heap.pop().map(|e| e.tag), Some('a'));
    assert_eq!(tags(&heap), vec!['c', 'b']);
}

#[test]
fn left_child_wins_a_tie_with_the_right() {
    let mut heap = Heap::new();
    heap.push(keyed(9, 't'));
    heap.push(keyed(7, 'l'));
    heap.push(keyed(7, 'r'));
    heap.push(keyed(1, 'x'));
    assert_eq!(tags(&heap), vec!['t', 'l', 'r', 'x']);
    assert_eq!(heap.pop().map(|e| e.tag), Some('t'));
    assert_eq!(tags(&heap), vec!['l', 'x', 'r']);
}

#[test]
fn greater_right_child_wins() {
    let mut heap = Heap::new();
    heap.push(keyed(9, 't'));
    heap.push(keyed(7, 'l'));
    heap.push(keyed(8, 'r'));
    heap.push(keyed(1, 'x'));
    heap.push(keyed(2, 'y'));
    heap.push(keyed(1, 'z'));
    assert_eq!(tags(&heap), vec!['t', 'l', 'r', 'x', 'y', 'z']);
    assert_eq!(heap.pop().map(|e| e.tag), Some('t'));
    assert_eq!(tags(&heap), vec!['r', 'l', 'z', 'x', 'y']);
}

#[test]
fn works_on_floats() {
    let mut heap = Heap::new();
    heap.push(2.5);
    heap.push(-1.0);
    heap.push(7.25);
    heap.push(0.0);
    assert_eq!(heap.as_slice(), vec![7.25, 0.0, 2.5, -1.0]);
    assert_eq!(heap.pop(), Some(7.25));
    assert_eq!(heap.pop(), Some(2.5));
    assert_eq!(heap.pop(), Some(0.0));
    assert_eq!(heap.pop(), Some(-1.0));
    assert_eq!(heap.pop(), None);
}

#[test]
fn works_on_strings() {
    let mut heap = Heap::new();
    heap.push(String::from("pear"));
    heap.push(String::from("apple"));
    heap.push(String::from("quince"));
    assert_eq!(heap.peek(), Some(&String::from("quince")));
    assert_eq!(heap.pop(), Some(String::from("quince")));
    assert_eq!(heap.pop(), Some(String::from("pear")));
    assert_eq!(heap.pop(), Some(String::from("apple")));
    assert_eq!(heap.pop(), None);
}
