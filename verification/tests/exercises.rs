use bankaccounts::linked_list::{LinkedList, ListNode};
use bankaccounts::numbers::{fib, plus_one};
use bankaccounts::search::binsearch;
use bankaccounts::sorting::{bubble_sort, insertion_sort, merge, merge_sort, merge_sort_mt};

#[test]
fn binsearch_finds_what_is_there() {
    let a = [1, 2, 3, 4, 5, 6, 10, 100, 101, 120, 155, 10001];
    assert_eq!(binsearch(&a, 6), Some(5));
    assert_eq!(binsearch(&a, 120), Some(9));
    assert_eq!(binsearch(&a, 155), Some(10));
    assert_eq!(binsearch(&a, 2), Some(1));
    assert_eq!(binsearch(&a, 1), Some(0));
    assert_eq!(binsearch(&a, 10001), Some(11));
    assert_eq!(binsearch(&a, 7), None);
    assert_eq!(binsearch(&a, 0), None);
    assert_eq!(binsearch(&a, 20000), None);
}

#[test]
fn binsearch_of_an_empty_slice_finds_nothing() {
    let empty: [i32; 0] = [];
    assert_eq!(binsearch(&empty, 5), None);
    assert_eq!(binsearch(&[5], 5), Some(0));
    assert_eq!(binsearch(&[5], 3), None);
    assert_eq!(binsearch(&[5], 7), None);
}

#[test]
fn fib_counts_from_one() {
    let first: Vec<i32> = (1..10).map(fib).collect();
    assert_eq!(first, vec![1, 1, 2, 3, 5, 8, 13, 21, 34]);
    assert_eq!(fib(20), 6765);
    assert_eq!(fib(30), 832040);
}

#[test]
fn plus_one_adds_one() {
    assert_eq!(plus_one(10), 11);
    assert_eq!(plus_one(-1), 0);
    assert_eq!(bankaccounts::optional::plus_one(Some(5)), Some(6));
    assert_eq!(bankaccounts::optional::plus_one(None), None);
}

#[test]
fn linked_list_keeps_order() {
    let mut list = LinkedList::new(String::from("Paul"));
    list.push_back(String::from("John"));
    list.push_back(String::from("Ringo"));
    list.push_back(String::from("George"));
    assert_eq!(list.peek_front(), Some(&String::from("Paul")));
    assert_eq!(list.peek_back(), Some(&String::from("George")));
    assert_eq!(list.to_text(), "Paul -> John -> Ringo -> George");

    let first = list.pop_front().unwrap();
    assert_eq!(first, "Paul");
    list.push_back(first);
    assert_eq!(list.to_text(), "John -> Ringo -> George -> Paul");

    list.push_front(String::from("Jimmy Page"));
    assert_eq!(list.peek_front(), Some(&String::from("Jimmy Page")));
    assert_eq!(list.peek_back(), Some(&String::from("Paul")));

    list.push_back(String::from("Robert Plant"));
    assert_eq!(list.peek_back(), Some(&String::from("Robert Plant")));
    assert!(list.contains(&String::from("Robert Plant")));
    assert!(list.contains(&String::from("Jimmy Page")));
    assert!(!list.contains(&String::from("Pete Best")));
    assert_eq!(list.len(), 6);
}

#[test]
fn linked_list_runs_empty() {
    let mut list = LinkedList::new(1);
    assert_eq!(list.pop_front(), Some(1));
    assert_eq!(list.pop_front(), None);
    assert_eq!(list.peek_front(), None);
    assert_eq!(list.peek_back(), None);
    assert!(!list.contains(&1));
    assert_eq!(list.len(), 0);
    list.push_back(2);
    assert_eq!(list.peek_front(), Some(&2));
    assert_eq!(list.peek_back(), Some(&2));
    list.push_front(3);
    assert_eq!(list.pop_front(), Some(3));
    assert_eq!(list.pop_front(), Some(2));
    let mut names: LinkedList<String> = LinkedList::new(String::from("x"));
    names.pop_front();
    assert_eq!(names.to_text(), "Empty list");
}

#[test]
fn list_node_starts_alone() {
    let node = ListNode::new(7);
    assert_eq!(node.val, 7);
    assert!(node.next.is_none());
}

fn scrambled(n: usize) -> Vec<i32> {
    let mut state: u64 = 0x2545_f491_4f6c_dd1d;
    let mut values = Vec::with_capacity(n);
    for _ in 0..n {
        state ^= state << 13;
        state ^= state >> 7;
        state ^= state << 17;
        values.push((state >> 16) as i32);
    }
    values
}

#[test]
fn sorts_agree_with_the_standard_sort() {
    for size in [0usize, 1, 2, 3, 10, 100, 1000] {
        let data = scrambled(size);
        let mut expected = data.clone();
        expected.sort();

        let mut bubble = data.clone();
        bubble_sort(&mut bubble);
        assert_eq!(bubble, expected);

        let mut insertion = data.clone();
        insertion_sort(&mut insertion);
        assert_eq!(insertion, expected);

        let mut merged = data.clone();
        merge_sort(&mut merged);
        assert_eq!(merged, expected);

        let mut merged_mt = data.clone();
        merge_sort_mt(&mut merged_mt);
        assert_eq!(merged_mt, expected);
    }
}

#[test]
fn long_slices_are_sorted_side_by_side() {
    let data = scrambled(20000);
    let mut expected = data.clone();
    expected.sort();
    let mut sorted = data.clone();
    merge_sort_mt(&mut sorted);
    assert_eq!(sorted, expected);
    assert_ne!(sorted, data);
}

#[test]
fn sorts_keep_repeated_values() {
    let mut values = vec![3, 1, 3, 2, 1, 3, -5, i32::MAX, i32::MIN, 0];
    let mut expected = values.clone();
    expected.sort();
    insertion_sort(&mut values);
    assert_eq!(values, expected);
    let mut values = vec![2, 2, 1, 1];
    bubble_sort(&mut values);
    assert_eq!(values, vec![1, 1, 2, 2]);
}

#[test]
fn merge_joins_two_runs() {
    let mut values = vec![1, 4, 9, 2, 3, 10, 11];
    merge(&mut values, 3);
    assert_eq!(values, vec![1, 2, 3, 4, 9, 10, 11]);
    let mut values = vec![5, 6, 1, 2];
    merge(&mut values, 2);
    assert_eq!(values, vec![1, 2, 5, 6]);
    let mut values = vec![1, 2, 3];
    merge(&mut values, 0);
    assert_eq!(values, vec![1, 2, 3]);
    merge(&mut values, 3);
    assert_eq!(values, vec![1, 2, 3]);
}
