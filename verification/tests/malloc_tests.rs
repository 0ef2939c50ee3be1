use rvkernel::malloc::BumpAllocator;
use rvkernel::malloc::HEAP_SIZE;

#[test]
fn malloc_returns_increasing_aligned_addresses() {
    let mut a = BumpAllocator::new(0x1000);
    let p1 = a.malloc(5).unwrap();
    let p2 = a.malloc(3).unwrap();
    let p3 = a.malloc(16).unwrap();
    assert_eq!(p1, 0x1000);
    assert_eq!(p2, 0x1008);
    assert_eq!(p3, 0x1010);
    assert_eq!(p1 % 8, 0);
    assert_eq!(p2 % 8, 0);
    assert_eq!(p3 % 8, 0);
    assert!(p2 > p1);
    assert!(p3 > p2);
}

#[test]
fn malloc_aligns_an_unaligned_base() {
    let mut a = BumpAllocator::new(0x1003);
    let p1 = a.malloc(1).unwrap();
    assert_eq!(p1, 0x1008);
    assert_eq!(p1 % 8, 0);
}

#[test]
fn malloc_whole_heap_then_nothing() {
    let mut a = BumpAllocator::new(0x1000);
    let p1 = a.malloc(HEAP_SIZE).unwrap();
    assert_eq!(p1, 0x1000);
    assert_eq!(a.malloc(1), None);
    // A zero-byte request still fits exactly at the end of the region.
    assert_eq!(a.malloc(0), Some(0x1000 + HEAP_SIZE as u64));
}

#[test]
fn malloc_oversized_request_fails_then_small_succeeds() {
    let mut a = BumpAllocator::new(0x1000);
    assert_eq!(a.malloc(HEAP_SIZE + 1), None);
    let p = a.malloc(8).unwrap();
    assert_eq!(p, 0x1000);
}

#[test]
fn free_reclaims_nothing() {
    let mut a = BumpAllocator::new(0x1000);
    let p1 = a.malloc(8).unwrap();
    a.free(p1);
    let p2 = a.malloc(8).unwrap();
    assert!(p2 > p1);
}
