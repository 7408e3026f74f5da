use rk_boot::frame_alloc::BumpAllocator;
use rk_boot::mapper::{MapError, Mapper, TranslateError};
use rk_boot::memory::{init, init_from};
use rk_boot::phys_map::{alias, map_physical_memory, PHYS_MEM_OFFSET};
use rk_boot::phys_mem::PhysMemory;

fn kernel_memory(frames: usize) -> (PhysMemory, BumpAllocator, Mapper) {
    let mut mem = PhysMemory::new();
    mem.add_region(0x200_0000, frames).unwrap();
    let mut alloc = BumpAllocator::new(0x200_0000);
    let mapper = Mapper::create(&mut mem, &mut alloc).unwrap();
    (mem, alloc, mapper)
}

#[test]
fn create_takes_and_zeroes_a_frame() {
    let mut mem = PhysMemory::new();
    mem.add_region(0x200_0000, 2).unwrap();
    assert!(mem.write(0x200_0000 + 8 * 17, 0xffff));
    assert!(mem.write(0x200_1000, 0xffff));
    let mut alloc = BumpAllocator::new(0x200_0000);
    let mapper = Mapper::create(&mut mem, &mut alloc).unwrap();
    assert_eq!(mapper.pml4_addr(), 0x200_0000);
    assert_eq!(alloc.peek(), 0x200_1000);
    assert_eq!(mem.read(0x200_0000 + 8 * 17), Some(0));
    assert_eq!(mem.read(0x200_1000), Some(0xffff));
    assert_eq!(mapper.translate(&mem, 0), Err(TranslateError::NotMapped));
    // Behind the memory there is no frame to start a hierarchy in.
    let mut behind = BumpAllocator::new(0x200_2000);
    assert_eq!(Mapper::create(&mut mem, &mut behind).err(), Some(MapError::OutOfFrames));
    assert_eq!(behind.peek(), 0x200_2000);
    let mut odd = BumpAllocator::new(0x200_0008);
    assert_eq!(Mapper::create(&mut mem, &mut odd).err(), Some(MapError::OutOfFrames));
}

#[test]
fn map_then_translate_round_trip() {
    let (mut mem, mut alloc, mapper) = kernel_memory(16);
    let virt = 0xffff_ff80_0000_0000u64;
    assert_eq!(mapper.translate(&mem, virt), Err(TranslateError::NotMapped));
    assert_eq!(mapper.map(&mut mem, &mut alloc, virt, 0x5000, 0b11), Ok(()));
    assert_eq!(mapper.translate(&mem, virt), Ok(0x5000));
    assert_eq!(mapper.translate(&mem, virt + 0x123), Ok(0x5123));
    assert_eq!(mapper.translate(&mem, virt + 0x1000), Err(TranslateError::NotMapped));
    // One PML4 and three new tables.
    assert_eq!(alloc.peek(), 0x200_4000);
}

#[test]
fn map_twice_overwrites() {
    let (mut mem, mut alloc, mapper) = kernel_memory(16);
    let virt = 0x4000_0000u64;
    assert_eq!(mapper.map(&mut mem, &mut alloc, virt, 0x7000, 0b11), Ok(()));
    assert_eq!(mapper.map(&mut mem, &mut alloc, virt, 0x9000, 0b11), Ok(()));
    assert_eq!(mapper.translate(&mem, virt), Ok(0x9000));
    // The second mapping needed no table.
    assert_eq!(alloc.peek(), 0x200_4000);
}

#[test]
fn map_fails_without_frames() {
    let (mut mem, mut alloc, mapper) = kernel_memory(3);
    let virt = 0x4000_0000u64;
    assert_eq!(
        mapper.map(&mut mem, &mut alloc, virt, 0x7000, 0b11),
        Err(MapError::OutOfFrames)
    );
    assert_eq!(mapper.translate(&mem, virt), Err(TranslateError::NotMapped));
}

#[test]
fn physical_mapping_bootstrap() {
    let (mut mem, mut alloc, mapper) = kernel_memory(1 + 513);
    let pdp = alloc.peek();
    assert_eq!(map_physical_memory(&mut mem, &mut alloc, mapper.pml4_addr()), Ok(()));
    assert_eq!(alloc.peek(), pdp + 513 * 4096);
    // PDP entry 0 references the first PD; PD entry 0 is the huge page at 0.
    assert_eq!(mem.read(pdp), Some((pdp + 0x1000) | 0b11));
    assert_eq!(mem.read(pdp + 0x1000), Some(0b1000_0011));
    assert_eq!(mem.read(mapper.pml4_addr() + 8 * 256), Some(pdp | 0b11));
    for phys in [0u64, 0x1234, 0x20_0000, 0x1234_5678, 0x7f_ffff_ffff] {
        assert_eq!(alias(phys), 0xffff_8000_0000_0000 | phys);
        assert_eq!(mapper.translate(&mem, PHYS_MEM_OFFSET | phys), Ok(phys));
    }
    // Behind 512 GiB nothing is mapped.
    assert_eq!(mapper.translate(&mem, 0xffff_8080_0000_0000), Err(TranslateError::NotMapped));
    assert_eq!(
        mapper.map(&mut mem, &mut alloc, PHYS_MEM_OFFSET, 0x5000, 0b11),
        Err(MapError::HugePage)
    );
}

#[test]
fn kernel_space_is_built() {
    let mut mem = PhysMemory::new();
    mem.add_region(0x70000, 10).unwrap();
    mem.add_region(0x200_0000, 600).unwrap();
    let mut alloc = BumpAllocator::new(0x200_0000);
    let space = init(&mut mem, &mut alloc, 0x70000).unwrap();
    assert_eq!(space.pml4, 0x200_0000);
    assert_eq!(space.heap, 0x200_0000 + 514 * 4096);
    let mapper = Mapper::new(space.pml4);
    assert_eq!(mapper.translate(&mem, PHYS_MEM_OFFSET | 0xb8000), Ok(0xb8000));
    assert_eq!(mapper.translate(&mem, 0xffff_ff80_0000_0000), Ok(space.heap));
    assert_eq!(
        mapper.translate(&mem, 0xffff_ff80_0000_0000 + 19 * 4096 + 5),
        Ok(space.heap + 19 * 4096 + 5)
    );
    assert_eq!(
        mapper.translate(&mem, 0xffff_ff80_0000_0000 + 20 * 4096),
        Err(TranslateError::NotMapped)
    );
}

#[test]
fn map_keeps_other_pages() {
    let (mut mem, mut alloc, mapper) = kernel_memory(32);
    let first = 0xffff_ff80_0000_0000u64;
    let second = 0xffff_ff80_0000_1000u64;
    let far = 0x0000_0080_4020_1000u64;
    assert_eq!(mapper.map(&mut mem, &mut alloc, first, 0x10_0000, 0b11), Ok(()));
    assert_eq!(mapper.map(&mut mem, &mut alloc, second, 0x30_0000, 0b11), Ok(()));
    assert_eq!(mapper.map(&mut mem, &mut alloc, far, 0x50_0000, 0b11), Ok(()));
    assert_eq!(mapper.translate(&mem, first), Ok(0x10_0000));
    assert_eq!(mapper.translate(&mem, second + 0xfff), Ok(0x30_0fff));
    assert_eq!(mapper.translate(&mem, far + 8), Ok(0x50_0008));
    // The second page shares all tables with the first; the third shares none.
    assert_eq!(alloc.peek(), 0x200_0000 + (1 + 3 + 3) * 4096);
}

#[test]
fn map_writes_address_and_flags_into_the_leaf() {
    let (mut mem, mut alloc, mapper) = kernel_memory(16);
    let virt = 0x20_3000u64;
    assert_eq!(mapper.map(&mut mem, &mut alloc, virt, 0x9000, 0b1), Ok(()));
    let (entry, level) = mapper.lookup(&mem, virt).unwrap();
    assert_eq!(entry.data(), 0x9001);
    assert_eq!(level, 1);
    assert!(!entry.is_writable());
    assert!(mapper.lookup(&mem, virt + 0x1000).is_none());
}

#[test]
fn map_without_present_flag_leaves_the_page_unmapped() {
    let (mut mem, mut alloc, mapper) = kernel_memory(16);
    let virt = 0x20_3000u64;
    assert_eq!(mapper.map(&mut mem, &mut alloc, virt, 0x9000, 0b10), Ok(()));
    assert_eq!(mapper.translate(&mem, virt), Err(TranslateError::NotMapped));
    // The tables are there all the same.
    assert_eq!(mapper.missing(&mem, virt), Ok(0));
    // Mapping it present overwrites the entry.
    assert_eq!(mapper.map(&mut mem, &mut alloc, virt, 0x9000, 0b11), Ok(()));
    assert_eq!(mapper.translate(&mem, virt), Ok(0x9000));
}

#[test]
fn missing_counts_the_tables_to_create() {
    let (mut mem, mut alloc, mapper) = kernel_memory(16);
    let virt = 0x0000_0080_4020_1000u64;
    assert_eq!(mapper.missing(&mem, virt), Ok(3));
    assert_eq!(mapper.map(&mut mem, &mut alloc, virt, 0x9000, 0b11), Ok(()));
    assert_eq!(mapper.missing(&mem, virt), Ok(0));
    // Same PT.
    assert_eq!(mapper.missing(&mem, virt + 0x1000), Ok(0));
    // Same PD, another PT.
    assert_eq!(mapper.missing(&mem, virt + 0x20_0000), Ok(1));
    // Same PDP, another PD.
    assert_eq!(mapper.missing(&mem, virt + 0x4000_0000), Ok(2));
    // Another PDP.
    assert_eq!(mapper.missing(&mem, virt + 0x80_0000_0000), Ok(3));
}

#[test]
fn map_stops_at_the_first_missing_frame() {
    // The PML4 and two more frames: the PDP and the PD can be made, the PT cannot.
    let (mut mem, mut alloc, mapper) = kernel_memory(3);
    let virt = 0x4000_0000u64;
    assert_eq!(
        mapper.map(&mut mem, &mut alloc, virt, 0x7000, 0b11),
        Err(MapError::OutOfFrames)
    );
    assert_eq!(alloc.peek(), 0x200_3000);
    assert_eq!(mapper.missing(&mem, virt), Ok(1));
    assert_eq!(mapper.translate(&mem, virt), Err(TranslateError::NotMapped));
}

#[test]
fn huge_pages_translate() {
    let (mut mem, mut alloc, mapper) = kernel_memory(16);
    let pdp = alloc.allocate(1).unwrap();
    assert!(mem.zero_frame(pdp));
    // PML4 entry 1 references the PDP; its entry 2 is a 1 GiB page at 3 GiB.
    assert!(mem.write(mapper.pml4_addr() + 8, pdp | 0b11));
    assert!(mem.write(pdp + 2 * 8, 0xc000_0000 | 0b1000_0011));
    let virt = (1u64 << 39) | (2 << 30);
    assert_eq!(mapper.translate(&mem, virt), Ok(0xc000_0000));
    assert_eq!(mapper.translate(&mem, virt + 0x1234_5678), Ok(0xc000_0000 + 0x1234_5678));
    let (entry, level) = mapper.lookup(&mem, virt).unwrap();
    assert_eq!(level, 3);
    assert!(entry.is_huge());
    assert_eq!(mapper.missing(&mem, virt), Err(MapError::HugePage));
    assert_eq!(
        mapper.map(&mut mem, &mut alloc, virt, 0x5000, 0b11),
        Err(MapError::HugePage)
    );
    // Nothing was taken for the refused mapping.
    assert_eq!(alloc.peek(), pdp + 4096);
}

#[test]
fn translate_in_an_unbacked_hierarchy() {
    let mem = PhysMemory::new();
    let mapper = Mapper::new(0x5000);
    assert_eq!(mapper.translate(&mem, 0), Err(TranslateError::NotMapped));
    let odd = Mapper::new(0x5008);
    assert_eq!(odd.translate(&mem, 0x1000), Err(TranslateError::NotMapped));
}

#[test]
fn physical_mapping_needs_all_its_frames() {
    let (mut mem, mut alloc, mapper) = kernel_memory(1 + 512);
    let cursor = alloc.peek();
    assert_eq!(
        map_physical_memory(&mut mem, &mut alloc, mapper.pml4_addr()),
        Err(MapError::OutOfFrames)
    );
    assert_eq!(alloc.peek(), cursor);
    assert_eq!(mem.read(cursor), Some(0));
    assert_eq!(mem.read(mapper.pml4_addr() + 8 * 256), Some(0));
}

#[test]
fn physical_mapping_entries() {
    let (mut mem, mut alloc, mapper) = kernel_memory(1 + 513);
    let pdp = alloc.peek();
    let pds = pdp + 0x1000;
    assert_eq!(map_physical_memory(&mut mem, &mut alloc, mapper.pml4_addr()), Ok(()));
    for i in [0u64, 1, 7, 255, 511] {
        assert_eq!(mem.read(pdp + 8 * i), Some((pds + 0x1000 * i) | 0b11));
    }
    for i in [0u64, 1, 511, 512, 513, 262_143] {
        assert_eq!(mem.read(pds + 8 * i), Some((0x20_0000 * i) | 0b1000_0011));
    }
}

#[test]
fn kernel_space_carries_the_loader_entry_over() {
    let mut mem = PhysMemory::new();
    mem.add_region(0x70000, 10).unwrap();
    mem.add_region(0x200_0000, 600).unwrap();
    // The loader's hierarchy maps the kernel in the last slot of its PML4.
    let loader = Mapper::new(0x70000);
    let mut budget = BumpAllocator::new(0x71000);
    let kernel_virt = 0xffff_ffff_f800_0000u64;
    assert_eq!(loader.map(&mut mem, &mut budget, kernel_virt, 0x10_0000, 0b11), Ok(()));
    assert_eq!(budget.peek(), 0x74000);

    let mut alloc = BumpAllocator::new(0x200_0000);
    let space = init(&mut mem, &mut alloc, 0x70000).unwrap();
    let mapper = Mapper::new(space.pml4);
    assert_eq!(mapper.translate(&mem, kernel_virt + 0x10), Ok(0x10_0010));
    assert_eq!(mapper.translate(&mem, 0xffff_ff80_0000_0000), Ok(space.heap));
    assert_eq!(mapper.translate(&mem, PHYS_MEM_OFFSET | 0x70000), Ok(0x70000));
    // The lower half is not mapped.
    assert_eq!(mapper.translate(&mem, 0x70000), Err(TranslateError::NotMapped));
    // The heap's PD and PT were created behind the heap's frames; the PDP
    // is the loader's.
    assert_eq!(alloc.peek(), space.heap + (20 + 2) * 4096);
    assert_eq!(mem.read(space.pml4 + 8 * 511), mem.read(0x70000 + 8 * 511));
}

#[test]
fn kernel_space_needs_its_frames() {
    let mut mem = PhysMemory::new();
    mem.add_region(0x70000, 10).unwrap();
    mem.add_region(0x200_0000, 514).unwrap();
    let mut alloc = BumpAllocator::new(0x200_0000);
    // The frames for the tables of the heap are missing.
    assert_eq!(init(&mut mem, &mut alloc, 0x70000), Err(MapError::OutOfFrames));

    let mut small = PhysMemory::new();
    small.add_region(0x70000, 10).unwrap();
    small.add_region(0x200_0000, 100).unwrap();
    let mut alloc = BumpAllocator::new(0x200_0000);
    assert_eq!(init(&mut small, &mut alloc, 0x70000), Err(MapError::OutOfFrames));
}

#[test]
fn kernel_space_is_refused_behind_a_huge_page() {
    let mut mem = PhysMemory::new();
    mem.add_region(0x70000, 10).unwrap();
    mem.add_region(0x200_0000, 600).unwrap();
    // The loader's last PML4 entry leads to a PDP whose first entry is a
    // 1 GiB page: the heap cannot be mapped under it.
    assert!(mem.write(0x70000 + 8 * 511, 0x71000 | 0b11));
    assert!(mem.write(0x71000, 0x4000_0000 | 0b1000_0011));
    let mut alloc = BumpAllocator::new(0x200_0000);
    assert_eq!(init(&mut mem, &mut alloc, 0x70000), Err(MapError::HugePage));
}

#[test]
fn mapping_touches_nothing_but_tables() {
    let mut mem = PhysMemory::new();
    mem.add_region(0x10_0000, 2).unwrap();
    mem.add_region(0x200_0000, 16).unwrap();
    for i in 0..1024u64 {
        assert!(mem.write(0x10_0000 + 8 * i, i ^ 0x5a5a));
    }
    let mut alloc = BumpAllocator::new(0x200_0000);
    let pml4 = alloc.allocate(1).unwrap();
    assert!(mem.zero_frame(pml4));
    let mapper = Mapper::new(pml4);
    assert_eq!(mapper.map(&mut mem, &mut alloc, 0x4000_0000, 0x10_0000, 0b11), Ok(()));
    assert_eq!(mapper.map(&mut mem, &mut alloc, 0x4000_1000, 0x10_1000, 0b11), Ok(()));
    for i in 0..1024u64 {
        assert_eq!(mem.read(0x10_0000 + 8 * i), Some(i ^ 0x5a5a));
    }
    // Frames behind the cursor are untouched as well.
    assert_eq!(alloc.peek(), 0x200_4000);
    for i in 0..512u64 {
        assert_eq!(mem.read(0x200_4000 + 8 * i), Some(0));
    }
}

#[test]
fn flags_in_the_address_bits_change_the_frame() {
    let (mut mem, mut alloc, mapper) = kernel_memory(16);
    let virt = 0x20_3000u64;
    // Bit 12 of the flags lands in the address of the entry.
    assert_eq!(mapper.map(&mut mem, &mut alloc, virt, 0x8000, 0x1003), Ok(()));
    assert_eq!(mapper.lookup(&mem, virt).unwrap().0.data(), 0x9003);
    assert_eq!(mapper.translate(&mem, virt), Ok(0x9000));
    // A flag above the address bits does not.
    assert_eq!(mapper.map(&mut mem, &mut alloc, virt, 0x8000, (1 << 63) | 0b11), Ok(()));
    assert_eq!(mapper.translate(&mem, virt), Ok(0x8000));
}

#[test]
fn frames_above_the_physical_address_space_are_cut_off() {
    let (mut mem, mut alloc, mapper) = kernel_memory(16);
    let virt = 0x20_3000u64;
    assert_eq!(mapper.map(&mut mem, &mut alloc, virt, (1 << 52) | 0x5000, 0b11), Ok(()));
    assert_eq!(mapper.lookup(&mem, virt).unwrap().0.data(), (1 << 52) | 0x5003);
    assert_eq!(mapper.translate(&mem, virt), Ok(0x5000));
}

#[test]
fn translation_ignores_the_bits_above_bit_47() {
    let (mut mem, mut alloc, mapper) = kernel_memory(16);
    assert_eq!(mapper.map(&mut mem, &mut alloc, 0xffff_ff80_0000_0000, 0x5000, 0b11), Ok(()));
    assert_eq!(mapper.translate(&mem, 0x0000_ff80_0000_0010), Ok(0x5010));
}

#[test]
fn kernel_space_from_the_locked_allocator() {
    let mut mem = PhysMemory::new();
    mem.add_region(0x70000, 10).unwrap();
    mem.add_region(0x200_0000, 1200).unwrap();
    let frames = rk_boot::locked::LockedBumpAllocator::new(0x200_0000);
    let space = frames.init_space(&mut mem, 0x70000).unwrap();
    assert_eq!(space.pml4, 0x200_0000);
    assert_eq!(space.heap, 0x200_0000 + 514 * 4096);
    // The PML4, the physical mapping, the heap and three tables for it.
    assert_eq!(frames.allocate(0), Ok(0x200_0000 + 537 * 4096));
    let mapper = Mapper::new(space.pml4);
    assert_eq!(mapper.translate(&mem, 0xffff_ff80_0000_0123), Ok(space.heap + 0x123));
    // The cursor behind the lock has moved: a second space lies behind the first.
    let second = frames.init_space(&mut mem, 0x70000).unwrap();
    assert_eq!(second.pml4, 0x200_0000 + 537 * 4096);
    // A cursor that is no multiple of the frame size is refused.
    let odd = rk_boot::locked::LockedBumpAllocator::new(0x200_0010);
    assert_eq!(odd.init_space(&mut mem, 0x70000), Err(MapError::OutOfFrames));
    let low = rk_boot::locked::LockedBumpAllocator::new(0x80000);
    assert_eq!(low.init_space(&mut mem, 0x70000), Err(MapError::OutOfFrames));
}

#[test]
fn kernel_space_is_refused_from_a_cursor_out_of_place() {
    let mut mem = PhysMemory::new();
    mem.add_region(0x70000, 10).unwrap();
    mem.add_region(0x200_0000, 600).unwrap();
    assert!(mem.write(0x70000 + 8 * 511, 0x7_1003));
    let mut low = BumpAllocator::new(0x80000);
    assert_eq!(init_from(&mut mem, &mut low, 0x70000), Err(MapError::OutOfFrames));
    assert_eq!(low.peek(), 0x80000);
    let mut odd = BumpAllocator::new(0x200_0008);
    assert_eq!(init_from(&mut mem, &mut odd, 0x70000), Err(MapError::OutOfFrames));
    assert_eq!(odd.peek(), 0x200_0008);
    // Nothing was written on the way.
    assert_eq!(mem.read(0x200_0000), Some(0));
    assert_eq!(mem.read(0x200_0000 + 8 * 256), Some(0));

    let mut frames = BumpAllocator::new(0x200_0000);
    let space = init_from(&mut mem, &mut frames, 0x70000).unwrap();
    assert_eq!(space.pml4, 0x200_0000);
    assert_eq!(space.heap, 0x200_0000 + 514 * 4096);
    // The loader's last entry brings its PDP along: the heap needs a PD and
    // a PT only.
    assert_eq!(frames.peek(), 0x200_0000 + 536 * 4096);
    assert_eq!(mem.read(0x200_0000 + 8 * 256), Some(0x200_1003));
    assert_eq!(mem.read(0x200_0000 + 8 * 511), Some(0x7_1003));
}

#[test]
fn map_links_each_table_word_for_word() {
    let mut mem = PhysMemory::new();
    mem.add_region(0x220_1000, 8).unwrap();
    let mut alloc = BumpAllocator::new(0x220_2000);
    let mapper = Mapper::new(0x220_1000);
    assert_eq!(mapper.map(&mut mem, &mut alloc, 0xffff_ff80_0000_0000, 0x230_0000, 0b11), Ok(()));
    assert_eq!(mem.read(0x220_1000 + 511 * 8), Some(0x220_2003));
    assert_eq!(mem.read(0x220_2000), Some(0x220_3003));
    assert_eq!(mem.read(0x220_3000), Some(0x220_4003));
    assert_eq!(mem.read(0x220_4000), Some(0x230_0003));
    assert_eq!(alloc.peek(), 0x220_5000);
    let written = [0x220_1000u64 + 511 * 8, 0x220_2000, 0x220_3000, 0x220_4000];
    let mut addr = 0x220_1000u64;
    while addr < 0x220_9000 {
        if !written.contains(&addr) {
            assert_eq!(mem.read(addr), Some(0));
        }
        addr += 8;
    }
}

#[test]
fn map_writes_an_entry_that_is_not_present() {
    let (mut mem, mut alloc, mapper) = kernel_memory(8);
    assert_eq!(mapper.map(&mut mem, &mut alloc, 0x40_0000, 0x5000, 0b10), Ok(()));
    // The entry is written as it is given, though it maps nothing.
    assert_eq!(mem.read(0x200_3000), Some(0x5002));
    assert_eq!(mapper.translate(&mem, 0x40_0000), Err(TranslateError::NotMapped));
    // A second mapping of the page takes no frame and replaces the entry.
    let cursor = alloc.peek();
    assert_eq!(mapper.map(&mut mem, &mut alloc, 0x40_0000, 0x6000, 0b10), Ok(()));
    assert_eq!(alloc.peek(), cursor);
    assert_eq!(mem.read(0x200_3000), Some(0x6002));
}

#[test]
fn kernel_space_has_its_three_entries_in_the_pml4() {
    let mut mem = PhysMemory::new();
    mem.add_region(0x70000, 10).unwrap();
    mem.add_region(0x200_0000, 600).unwrap();
    assert!(mem.write(0x70000 + 8 * 511, 0x7_1003));
    let mut frames = BumpAllocator::new(0x200_0000);
    let space = init(&mut mem, &mut frames, 0x70000).unwrap();
    let mut i = 0u64;
    while i < 512 {
        let expected = match i {
            256 => 0x200_1003,
            511 => 0x7_1003,
            _ => 0,
        };
        assert_eq!(mem.read(space.pml4 + 8 * i), Some(expected));
        i += 1;
    }
    // Without a last entry from the loader the heap gets a PDP of its own,
    // behind its frames.
    let mut bare = PhysMemory::new();
    bare.add_region(0x70000, 10).unwrap();
    bare.add_region(0x200_0000, 600).unwrap();
    let mut frames = BumpAllocator::new(0x200_0000);
    let space = init(&mut bare, &mut frames, 0x70000).unwrap();
    assert_eq!(bare.read(space.pml4 + 8 * 256), Some(0x200_1003));
    assert_eq!(bare.read(space.pml4 + 8 * 511), Some((0x200_0000 + 534 * 4096) | 0b11));
    assert_eq!(bare.read(space.pml4 + 8 * 510), Some(0));
}

#[test]
fn frames_backed_for_runs_of_any_length() {
    let mut mem = PhysMemory::new();
    mem.add_region(0x200_0000, 4).unwrap();
    assert!(rk_boot::phys_map::frames_backed(&mem, 0x200_0000, 0));
    assert!(rk_boot::phys_map::frames_backed(&mem, 0x200_0000, 4));
    assert!(!rk_boot::phys_map::frames_backed(&mem, 0x200_0000, 5));
    assert!(!rk_boot::phys_map::frames_backed(&mem, 0x200_1000, 4));
    assert!(!rk_boot::phys_map::frames_backed(&mem, 0x200_0000, u64::MAX));
    assert!(rk_boot::phys_map::frames_backed(&mem, 0x1_0000_0000_0000, 0));
    assert!(!rk_boot::phys_map::frames_backed(&mem, 0x1_0000_0000_0000, 1));
}
