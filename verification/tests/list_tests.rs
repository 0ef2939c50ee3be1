use rvkernel::list::LinkedList;

#[test]
fn a_fresh_list_is_empty() {
    let list: LinkedList<u32> = LinkedList::new();
    assert!(list.is_empty());
}

#[test]
fn push_back_then_pop_front_is_first_in_first_out() {
    let mut list: LinkedList<u32> = LinkedList::new();
    list.push_back(1);
    list.push_back(2);
    list.push_back(3);
    assert!(!list.is_empty());
    assert_eq!(list.pop_front(), Some(1));
    assert_eq!(list.pop_front(), Some(2));
    assert_eq!(list.pop_front(), Some(3));
    assert_eq!(list.pop_front(), None);
    assert!(list.is_empty());
}

#[test]
fn push_front_then_pop_back_is_first_in_first_out() {
    let mut list: LinkedList<u32> = LinkedList::new();
    list.push_front(1);
    list.push_front(2);
    list.push_front(3);
    assert_eq!(list.pop_back(), Some(1));
    assert_eq!(list.pop_back(), Some(2));
    assert_eq!(list.pop_back(), Some(3));
    assert_eq!(list.pop_back(), None);
}

#[test]
fn both_ends_work_together() {
    let mut list: LinkedList<i32> = LinkedList::new();
    list.push_back(2);
    list.push_front(1);
    list.push_back(3);
    assert_eq!(list.pop_front(), Some(1));
    assert_eq!(list.pop_back(), Some(3));
    assert_eq!(list.pop_front(), Some(2));
    assert_eq!(list.pop_front(), None);
}

#[test]
fn remove_node_safe_unlinks_a_middle_node() {
    let mut list: LinkedList<u32> = LinkedList::new();
    list.push_back(10);
    let middle = list.push_back(20);
    list.push_back(30);
    let taken = list.remove_node_safe(middle);
    assert_eq!(taken, 20);
    assert_eq!(list.pop_front(), Some(10));
    assert_eq!(list.pop_front(), Some(30));
    assert_eq!(list.pop_front(), None);
}

#[test]
fn get_and_replace_work_on_a_linked_node() {
    let mut list: LinkedList<u32> = LinkedList::new();
    let id = list.push_back(7);
    assert_eq!(*list.get(id), 7);
    let prev = list.replace(id, 9);
    assert_eq!(prev, 7);
    assert_eq!(*list.get(id), 9);
    assert_eq!(list.pop_front(), Some(9));
}

#[test]
fn the_cursor_walks_front_to_back() {
    let mut list: LinkedList<u32> = LinkedList::new();
    list.push_back(1);
    list.push_back(2);
    list.push_back(3);
    let mut it = list.iter();
    let mut seen = Vec::new();
    while let Some(id) = it.next(&list) {
        seen.push(*list.get(id));
    }
    assert_eq!(seen, vec![1, 2, 3]);
}

#[test]
fn the_cursor_of_an_empty_list_yields_nothing() {
    let list: LinkedList<u32> = LinkedList::new();
    let mut it = list.iter();
    assert_eq!(it.next(&list), None);
}

#[test]
fn removing_the_yielded_node_does_not_derail_the_cursor() {
    // Drain by yielding, deciding, and unlinking the yielded node: the
    // cursor still visits every node once, in order.
    let mut list: LinkedList<u32> = LinkedList::new();
    list.push_back(1);
    list.push_back(2);
    list.push_back(3);
    list.push_back(4);
    let mut it = list.iter();
    let mut removed = Vec::new();
    let mut seen = Vec::new();
    while let Some(id) = it.next(&list) {
        let v = *list.get(id);
        seen.push(v);
        if v % 2 == 0 {
            removed.push(list.remove_node_safe(id));
        }
    }
    assert_eq!(seen, vec![1, 2, 3, 4]);
    assert_eq!(removed, vec![2, 4]);
    assert_eq!(list.pop_front(), Some(1));
    assert_eq!(list.pop_front(), Some(3));
    assert_eq!(list.pop_front(), None);
}
