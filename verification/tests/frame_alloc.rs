use rk_boot::frame_alloc::{BumpAllocator, FrameError, FRAME_ALLOCATOR_START};

#[test]
fn allocate_returns_cursor_and_advances() {
    let mut allocator = BumpAllocator::new(FRAME_ALLOCATOR_START);
    assert_eq!(allocator.allocate(1), Ok(0x200_0000));
    assert_eq!(allocator.allocate(1), Ok(0x200_1000));
    assert_eq!(allocator.peek(), 0x200_2000);
}

#[test]
fn consecutive_allocations_do_not_overlap() {
    for count in [1usize, 2, 7, 513] {
        let mut allocator = BumpAllocator::new(FRAME_ALLOCATOR_START);
        let first = allocator.allocate(count).unwrap();
        let second = allocator.allocate(count).unwrap();
        assert_eq!(second, first + count as u64 * 4096);
        assert!(first + count as u64 * 4096 <= second);
    }
}

#[test]
fn allocate_zero_frames_leaves_cursor() {
    let mut allocator = BumpAllocator::new(0x200_0000);
    assert_eq!(allocator.allocate(0), Ok(0x200_0000));
    assert_eq!(allocator.peek(), 0x200_0000);
    assert_eq!(allocator.allocate(1), Ok(0x200_0000));
}

#[test]
fn allocate_past_the_address_space_fails() {
    let mut allocator = BumpAllocator::new(u64::MAX - 4095);
    assert_eq!(allocator.allocate(1), Err(FrameError::Exhausted));
    assert_eq!(allocator.peek(), u64::MAX - 4095);
    assert_eq!(allocator.allocate(0), Ok(u64::MAX - 4095));
}

#[test]
fn free_is_refused() {
    let mut allocator = BumpAllocator::new(0x200_0000);
    let addr = allocator.allocate(3).unwrap();
    assert_eq!(allocator.free(addr, 3), Err(FrameError::FreeUnsupported));
    assert_eq!(allocator.peek(), 0x200_3000);
}

#[test]
fn locked_allocator_hands_out_consecutive_runs() {
    let allocator = rk_boot::locked::LockedBumpAllocator::new(0x200_0000);
    assert_eq!(allocator.allocate(1), Ok(0x200_0000));
    assert_eq!(allocator.allocate(513), Ok(0x200_1000));
    assert_eq!(allocator.allocate(0), Ok(0x200_1000 + 513 * 4096));
    assert_eq!(allocator.allocate(20), Ok(0x200_1000 + 513 * 4096));
    assert_eq!(allocator.free(0x200_0000, 1), Err(FrameError::FreeUnsupported));
    assert_eq!(allocator.allocate(1), Ok(0x200_1000 + 533 * 4096));
}

#[test]
fn locked_allocator_refuses_to_wrap() {
    let allocator = rk_boot::locked::LockedBumpAllocator::new(u64::MAX - 4095);
    assert_eq!(allocator.allocate(1), Err(FrameError::Exhausted));
    assert_eq!(allocator.allocate(0), Ok(u64::MAX - 4095));
}
