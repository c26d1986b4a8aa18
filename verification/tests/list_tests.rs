use algo_exercises::list::LinkedList;

/// Renders a list as its comma-separated element sequence, in order.
fn render<T: std::fmt::Display>(list: &LinkedList<T>) -> String {
    let mut out = String::new();
    let mut i: i32 = 0;
    while let Some(v) = list.get(i) {
        if i > 0 {
            out.push_str(", ");
        }
        out.push_str(&v.to_string());
        i += 1;
    }
    out
}

#[test]
fn create_numeric_list() {
    let mut list = LinkedList::<i32>::new();
    list.add(1);
    list.add(2);
    list.add(3);
    println!("Linked List is {}", render(&list));
    assert_eq!(3, list.length);
}

#[test]
fn create_string_list() {
    let mut list_str = LinkedList::<String>::new();
    list_str.add("A".to_string());
    list_str.add("B".to_string());
    list_str.add("C".to_string());
    println!("Linked List is {}", render(&list_str));
    assert_eq!(3, list_str.length);
}

#[test]
fn test_merge_linked_list_1() {
    let mut list_a = LinkedList::<i32>::new();
    let mut list_b = LinkedList::<i32>::new();
    let vec_a = vec![1, 3, 5, 7];
    let vec_b = vec![2, 4, 6, 8];
    let target_vec = vec![1, 2, 3, 4, 5, 6, 7, 8];

    for i in vec_a {
        list_a.add(i);
    }
    for i in vec_b {
        list_b.add(i);
    }
    println!("list a {} list b {}", render(&list_a), render(&list_b));
    let list_c = LinkedList::merge(list_a, list_b);
    println!("merged List is {}", render(&list_c));
    for (i, &val) in target_vec.iter().enumerate() {
        assert_eq!(val, *list_c.get(i as i32).unwrap());
    }
}

#[test]
fn test_merge_linked_list_2() {
    let mut list_a = LinkedList::<i32>::new();
    let mut list_b = LinkedList::<i32>::new();
    let vec_a = vec![11, 33, 44, 88, 89, 90, 100];
    let vec_b = vec![1, 22, 30, 45];
    let target_vec = vec![1, 11, 22, 30, 33, 44, 45, 88, 89, 90, 100];

    for i in vec_a {
        list_a.add(i);
    }
    for i in vec_b {
        list_b.add(i);
    }
    println!("list a {} list b {}", render(&list_a), render(&list_b));
    let list_c = LinkedList::merge(list_a, list_b);
    println!("merged List is {}", render(&list_c));
    for (i, &val) in target_vec.iter().enumerate() {
        assert_eq!(val, *list_c.get(i as i32).unwrap());
    }
}

#[test]
fn test_new_list_is_empty() {
    let list = LinkedList::<i32>::new();
    assert_eq!(0, list.length);
    assert!(list.get(0).is_none());
}

#[test]
fn test_get_out_of_range_is_absent() {
    let mut list = LinkedList::<i32>::new();
    list.add(10);
    list.add(20);
    assert!(list.get(-1).is_none());
    assert!(list.get(2).is_none());
    assert!(list.get(i32::MAX).is_none());
    assert_eq!(Some(&10), list.get(0));
    assert_eq!(Some(&20), list.get(1));
}

#[test]
fn test_append_count_and_last() {
    let mut list = LinkedList::<i32>::new();
    let values = vec![4, -2, 9, 9, 0];
    for &v in &values {
        list.add(v);
    }
    assert_eq!(values.len() as u32, list.length);
    assert_eq!(Some(&0), list.get(values.len() as i32 - 1));
}

#[test]
fn test_merge_length_and_order() {
    let mut list_a = LinkedList::<i32>::new();
    let mut list_b = LinkedList::<i32>::new();
    for v in [1, 2, 2, 5] {
        list_a.add(v);
    }
    for v in [2, 3, 5, 5, 6] {
        list_b.add(v);
    }
    let merged = LinkedList::merge(list_a, list_b);
    assert_eq!(9, merged.length);
    let mut elements = Vec::new();
    for i in 0..9 {
        elements.push(*merged.get(i).unwrap());
    }
    // non-decreasing
    for w in elements.windows(2) {
        assert!(w[0] <= w[1]);
    }
    // multiset union of the inputs
    let mut expected = vec![1, 2, 2, 5, 2, 3, 5, 5, 6];
    expected.sort();
    assert_eq!(expected, elements);
}

#[test]
fn test_lists_release_cleanly() {
    // Lists of size 0, 1 and N, including a merged one, go out of scope here;
    // node ownership is plain safe Rust, so each node is released exactly once.
    let _empty = LinkedList::<i32>::new();
    let mut one = LinkedList::<i32>::new();
    one.add(42);
    let mut many = LinkedList::<i32>::new();
    for v in 0..100 {
        many.add(v);
    }
    let merged = LinkedList::merge(one, many);
    assert_eq!(101, merged.length);
}

#[test]
fn test_merge_with_empty_list() {
    let empty = LinkedList::<i32>::new();
    let mut list_b = LinkedList::<i32>::new();
    for v in [3, 8, 21] {
        list_b.add(v);
    }
    let merged = LinkedList::merge(empty, list_b);
    assert_eq!(3, merged.length);
    assert_eq!(Some(&3), merged.get(0));
    assert_eq!(Some(&8), merged.get(1));
    assert_eq!(Some(&21), merged.get(2));

    let also_empty = LinkedList::<i32>::new();
    let mut list_c = LinkedList::<i32>::new();
    list_c.add(7);
    let merged_right = LinkedList::merge(list_c, also_empty);
    assert_eq!(1, merged_right.length);
    assert_eq!(Some(&7), merged_right.get(0));

    let both = LinkedList::merge(LinkedList::<i32>::new(), LinkedList::<i32>::new());
    assert_eq!(0, both.length);
    assert!(both.get(0).is_none());
}
