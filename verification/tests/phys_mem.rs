use rk_boot::phys_mem::{PhysMemory, RegionError, MAX_PHYS_ADDR};

#[test]
fn empty_memory_has_no_words() {
    let mem = PhysMemory::new();
    assert_eq!(mem.read(0), None);
    assert_eq!(mem.read(0x1000), None);
    assert!(!mem.backs_frame(0));
}

#[test]
fn added_region_is_zero_and_bounded() {
    let mut mem = PhysMemory::new();
    assert_eq!(mem.add_region(0x70000, 2), Ok(()));
    assert_eq!(mem.read(0x70000), Some(0));
    assert_eq!(mem.read(0x70000 + 2 * 4096 - 8), Some(0));
    assert_eq!(mem.read(0x70000 + 2 * 4096), None);
    assert_eq!(mem.read(0x70000 - 8), None);
    // Words lie at multiples of 8 only.
    assert_eq!(mem.read(0x70004), None);
    assert!(mem.backs_frame(0x70000));
    assert!(mem.backs_frame(0x71000));
    assert!(!mem.backs_frame(0x72000));
    assert!(!mem.backs_frame(0x70008));
}

#[test]
fn write_then_read() {
    let mut mem = PhysMemory::new();
    mem.add_region(0x1000, 1).unwrap();
    assert!(mem.write(0x1008, 0xdead_beef));
    assert_eq!(mem.read(0x1008), Some(0xdead_beef));
    assert_eq!(mem.read(0x1000), Some(0));
    assert_eq!(mem.read(0x1010), Some(0));
    // A write where the memory has no word does nothing.
    assert!(!mem.write(0x2000, 1));
    assert!(!mem.write(0x1004, 1));
    assert_eq!(mem.read(0x2000), None);
}

#[test]
fn regions_are_kept_apart() {
    let mut mem = PhysMemory::new();
    mem.add_region(0x1000, 1).unwrap();
    mem.add_region(0x10_0000, 4).unwrap();
    assert!(mem.write(0x1000, 1));
    assert!(mem.write(0x10_0000, 2));
    assert!(mem.write(0x10_3ff8, 3));
    assert_eq!(mem.read(0x1000), Some(1));
    assert_eq!(mem.read(0x10_0000), Some(2));
    assert_eq!(mem.read(0x10_3ff8), Some(3));
    assert_eq!(mem.read(0x2000), None);
}

#[test]
fn region_errors() {
    let mut mem = PhysMemory::new();
    assert_eq!(mem.add_region(0x1001, 1), Err(RegionError::Misaligned));
    assert_eq!(mem.add_region(MAX_PHYS_ADDR, 1), Err(RegionError::TooLarge));
    assert_eq!(mem.add_region(MAX_PHYS_ADDR - 4096, 2), Err(RegionError::TooLarge));
    assert_eq!(mem.add_region(MAX_PHYS_ADDR - 4096, 1), Ok(()));
    assert_eq!(mem.add_region(0x4000, 4), Ok(()));
    assert_eq!(mem.add_region(0x4000, 1), Err(RegionError::Overlap));
    assert_eq!(mem.add_region(0x7000, 1), Err(RegionError::Overlap));
    assert_eq!(mem.add_region(0x3000, 2), Err(RegionError::Overlap));
    assert_eq!(mem.add_region(0x3000, 1), Ok(()));
    assert_eq!(mem.add_region(0x8000, 1), Ok(()));
    // A region without frames adds nothing.
    assert_eq!(mem.add_region(0x4000, 0), Ok(()));
    assert_eq!(mem.read(0x9000), None);
}

#[test]
fn zero_frame_clears_one_frame() {
    let mut mem = PhysMemory::new();
    mem.add_region(0x2000, 3).unwrap();
    for i in 0..(3 * 512) {
        assert!(mem.write(0x2000 + 8 * i, i + 1));
    }
    assert!(mem.zero_frame(0x3000));
    assert_eq!(mem.read(0x2ff8), Some(512));
    assert_eq!(mem.read(0x3000), Some(0));
    assert_eq!(mem.read(0x3ff8), Some(0));
    assert_eq!(mem.read(0x4000), Some(1025));
    // No frame there: nothing happens.
    assert!(!mem.zero_frame(0x5000));
    assert!(!mem.zero_frame(0x2008));
    assert_eq!(mem.read(0x2008), Some(2));
}
