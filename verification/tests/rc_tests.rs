use rvkernel::rc::Arc;
use rvkernel::rc::RcHeap;

#[test]
fn cloning_n_times_and_releasing_all_frees_exactly_once() {
    let mut heap: RcHeap<u32> = RcHeap::new_heap();
    let first = heap.new(7);
    let mut handles = Vec::new();
    for _ in 0..3 {
        let h = heap.clone(&first);
        handles.push(h);
    }
    handles.push(first);
    let mut frees = 0;
    for h in handles {
        if heap.release(h) {
            frees += 1;
        }
    }
    assert_eq!(frees, 1);
}

#[test]
fn only_the_last_release_frees() {
    let mut heap: RcHeap<u32> = RcHeap::new_heap();
    let a = heap.new(1);
    let b = heap.clone(&a);
    assert!(!heap.release(a));
    assert!(heap.release(b));
}

#[test]
fn the_value_is_readable_while_a_handle_lives() {
    let mut heap: RcHeap<&str> = RcHeap::new_heap();
    let a = heap.new("shared");
    let b = heap.clone(&a);
    assert!(!heap.release(a));
    assert_eq!(*heap.get_ref(&b), "shared");
    assert!(heap.release(b));
}

#[test]
fn ptr_eq_tells_cells_apart() {
    let mut heap: RcHeap<u32> = RcHeap::new_heap();
    let a = heap.new(1);
    let a2 = heap.clone(&a);
    let b = heap.new(1);
    assert!(Arc::ptr_eq(&a, &a2));
    assert!(!Arc::ptr_eq(&a, &b));
}
