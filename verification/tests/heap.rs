use rk_boot::heap::{HeapAllocator, HEAP_BASE, HEAP_FRAMES};
use rk_boot::locked::LockedHeapAllocator;

#[test]
fn heap_constants() {
    assert_eq!(HEAP_BASE, 0xffff_ff80_0000_0000);
    assert_eq!(HEAP_FRAMES, 20);
}

#[test]
fn heap_allocations_are_aligned() {
    let mut heap = HeapAllocator::new(0x1001);
    // The cursor is rounded up, not pushed on by the remainder.
    assert_eq!(heap.allocate(4, 8), Some(0x1008));
    assert_eq!(heap.allocate(1, 1), Some(0x100c));
    assert_eq!(heap.allocate(16, 16), Some(0x1010));
    assert_eq!(heap.allocate(3, 4096), Some(0x2000));
    assert_eq!(heap.allocate(0, 2), Some(0x2004));
}

#[test]
fn heap_addresses_grow_past_earlier_allocations() {
    let mut heap = HeapAllocator::new(HEAP_BASE);
    let requests = [(24usize, 8usize), (1, 1), (100, 64), (7, 2), (4096, 4096), (3, 1)];
    let mut end: u64 = 0;
    for (size, align) in requests {
        let addr = heap.allocate(size, align).unwrap();
        assert_eq!(addr % align as u64, 0);
        assert!(addr >= end);
        end = addr + size as u64;
    }
}

#[test]
fn heap_refuses_what_it_cannot_serve() {
    let mut heap = HeapAllocator::new(0x1000);
    assert_eq!(heap.allocate(8, 0), None);
    assert_eq!(heap.allocate(8, 8), Some(0x1000));
    let mut full = HeapAllocator::new(u64::MAX - 7);
    assert_eq!(full.allocate(8, 1), None);
    assert_eq!(full.allocate(7, 1), Some(u64::MAX - 7));
    let mut odd = HeapAllocator::new(u64::MAX - 2);
    assert_eq!(odd.allocate(1, 16), None);
    assert_eq!(odd.allocate(1, 1), Some(u64::MAX - 2));
}

#[test]
fn heap_never_takes_memory_back() {
    let mut heap = HeapAllocator::new(0x1000);
    let addr = heap.allocate(64, 8).unwrap();
    heap.dealloc(addr, 64, 8);
    assert_eq!(heap.allocate(64, 8), Some(0x1040));
}

#[test]
fn locked_heap_serves_one_request_after_the_other() {
    let heap = LockedHeapAllocator::new(0x1000);
    assert_eq!(heap.allocate(10, 2), Some(0x1000));
    assert_eq!(heap.allocate(4, 4), Some(0x100c));
    heap.dealloc(0x1000, 10, 2);
    assert_eq!(heap.allocate(1, 1), Some(0x1010));
    assert_eq!(heap.allocate(1, 0), None);
}

#[test]
fn locked_heap_serves_an_empty_request_at_the_last_address() {
    let heap = LockedHeapAllocator::new(u64::MAX);
    assert_eq!(heap.allocate(0, 1), Some(u64::MAX));
    assert_eq!(heap.allocate(1, 1), None);
    assert_eq!(heap.allocate(0, 2), None);
    assert_eq!(heap.allocate(0, 1), Some(u64::MAX));
}
