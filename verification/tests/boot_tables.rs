use rk_boot::boot_tables::{
    build_page_tables, map_page, map_page_checked, map_pages, pages_for, start_page_tables,
    PagingError,
    IDENTITY_PDP, PAGING_BASE, PAGING_PAGES_COUNT,
};
use rk_boot::mapper::{Mapper, TranslateError};
use rk_boot::phys_mem::PhysMemory;

const KERNEL_VIRT: u64 = 0xffff_ff80_0000_0000;
const ENTRY_VIRT: u64 = 0xffff_ff80_0010_0000;

fn low_memory() -> PhysMemory {
    let mut mem = PhysMemory::new();
    mem.add_region(PAGING_BASE, PAGING_PAGES_COUNT).unwrap();
    mem
}

#[test]
fn pages_round_up() {
    assert_eq!(pages_for(0), 0);
    assert_eq!(pages_for(1), 1);
    assert_eq!(pages_for(4095), 1);
    assert_eq!(pages_for(4096), 1);
    assert_eq!(pages_for(4097), 2);
    assert_eq!(pages_for(2 * 1024 * 1024), 512);
    assert_eq!(pages_for(u64::MAX), 1 << 52);
}

#[test]
fn tables_for_one_page_kernel() {
    let mut mem = low_memory();
    // Leftovers in the frames are wiped.
    mem.write(PAGING_BASE + 8 * 300, 0xffff);
    mem.write(PAGING_BASE + 9 * 4096, 0xffff);
    let used = build_page_tables(&mut mem, KERNEL_VIRT, 0x10_0000, 4096, ENTRY_VIRT, 0x20_0000);
    // PML4, identity PDP, then PDP, PD and PT of the kernel; the entry data
    // lies in the same 2 MiB and shares the PT.
    assert_eq!(used, Ok(5));
    assert_eq!(mem.read(PAGING_BASE), Some(IDENTITY_PDP | 0b11));
    assert_eq!(mem.read(PAGING_BASE + 8 * 300), Some(0));
    assert_eq!(mem.read(PAGING_BASE + 9 * 4096), Some(0));
    assert_eq!(mem.read(IDENTITY_PDP), Some(0b1000_0011));
    assert_eq!(mem.read(IDENTITY_PDP + 8), Some(0x4000_0000 | 0b1000_0011));
    assert_eq!(mem.read(IDENTITY_PDP + 16), Some(0x8000_0000 | 0b1000_0011));
    assert_eq!(mem.read(IDENTITY_PDP + 24), Some(0xc000_0000 | 0b1000_0011));
    assert_eq!(mem.read(IDENTITY_PDP + 32), Some(0));

    let mapper = Mapper::new(PAGING_BASE);
    let (entry, level) = mapper.lookup(&mem, KERNEL_VIRT).unwrap();
    assert_eq!(entry.data(), 0x10_0000 | 0b11);
    assert_eq!(level, 1);
    assert_eq!(mapper.translate(&mem, KERNEL_VIRT + 0xabc), Ok(0x10_0abc));
    assert_eq!(mapper.translate(&mem, KERNEL_VIRT + 0x1000), Err(TranslateError::NotMapped));
    assert_eq!(mapper.translate(&mem, ENTRY_VIRT), Ok(0x20_0000));
}

#[test]
fn first_four_gib_are_mapped_onto_themselves() {
    let mut mem = low_memory();
    build_page_tables(&mut mem, KERNEL_VIRT, 0x10_0000, 1, ENTRY_VIRT, 0x20_0000).unwrap();
    let mapper = Mapper::new(PAGING_BASE);
    for addr in [0u64, 0x70000, 0x3fff_ffff, 0x4000_0000, 0x8000_0000, 0xffff_ffff] {
        assert_eq!(mapper.translate(&mem, addr), Ok(addr));
    }
    assert_eq!(mapper.translate(&mem, 0x1_0000_0000), Err(TranslateError::NotMapped));
    let (entry, level) = mapper.lookup(&mem, 0x8000_1234).unwrap();
    assert_eq!(entry.data(), 0x8000_0000 | 0b1000_0011);
    assert_eq!(level, 3);
}

#[test]
fn kernel_of_two_mib_is_mapped_page_by_page() {
    let mut mem = low_memory();
    let kernel_virt = 0xffff_ffff_f800_0000u64;
    let used =
        build_page_tables(&mut mem, kernel_virt, 0x123_4000, 2 * 1024 * 1024, ENTRY_VIRT, 0x9000);
    // Three tables for the kernel; the entry data shares the PDP and needs
    // a PD and a PT.
    assert_eq!(used, Ok(7));
    let mapper = Mapper::new(PAGING_BASE);
    for page in [0u64, 1, 2, 255, 511] {
        assert_eq!(
            mapper.translate(&mem, kernel_virt + page * 4096 + 7),
            Ok(0x123_4000 + page * 4096 + 7)
        );
    }
    assert_eq!(
        mapper.translate(&mem, kernel_virt + 512 * 4096),
        Err(TranslateError::NotMapped)
    );
    assert_eq!(mapper.translate(&mem, ENTRY_VIRT), Ok(0x9000));
}

#[test]
fn start_sets_up_the_identity_mapping() {
    let mut mem = low_memory();
    mem.write(PAGING_BASE + 8, 0xffff);
    assert_eq!(start_page_tables(&mut mem), Ok(2));
    assert_eq!(mem.read(PAGING_BASE), Some(IDENTITY_PDP | 0b11));
    assert_eq!(mem.read(PAGING_BASE + 8), Some(0));
    let mapper = Mapper::new(PAGING_BASE);
    assert_eq!(mapper.translate(&mem, 0x1234_5678), Ok(0x1234_5678));
    assert_eq!(mapper.translate(&mem, KERNEL_VIRT), Err(TranslateError::NotMapped));
    let mut short = PhysMemory::new();
    short.add_region(PAGING_BASE + 4096, 9).unwrap();
    assert_eq!(start_page_tables(&mut short), Err(PagingError::NoMemory));
}

#[test]
fn map_page_counts_the_frames_in_use() {
    let mut mem = low_memory();
    assert_eq!(start_page_tables(&mut mem), Ok(2));
    assert_eq!(map_page(&mut mem, KERNEL_VIRT, 0x10_0000, 2), Ok(5));
    // The same PT serves the next page.
    assert_eq!(map_page(&mut mem, KERNEL_VIRT + 0x1000, 0x10_1000, 5), Ok(5));
    // Mapping a page again to the frame that it has changes nothing.
    assert_eq!(map_page(&mut mem, KERNEL_VIRT, 0x10_0000, 5), Ok(5));
    let mapper = Mapper::new(PAGING_BASE);
    assert_eq!(mapper.translate(&mem, KERNEL_VIRT), Ok(0x10_0000));
    assert_eq!(mapper.translate(&mem, KERNEL_VIRT + 0x1000), Ok(0x10_1000));
    assert_eq!(mem.read(PAGING_BASE + 8 * 511), Some((PAGING_BASE + 2 * 4096) | 0b11));
}

#[test]
fn map_page_refuses_another_frame_for_a_mapped_page() {
    let mut mem = low_memory();
    start_page_tables(&mut mem).unwrap();
    assert_eq!(map_page(&mut mem, KERNEL_VIRT, 0x10_0000, 2), Ok(5));
    assert_eq!(
        map_page_checked(&mut mem, KERNEL_VIRT, 0x20_0000, 5),
        Err(PagingError::Conflict)
    );
    // The same frame again is no conflict.
    assert_eq!(map_page_checked(&mut mem, KERNEL_VIRT, 0x10_0000, 5), Ok(5));
    let mapper = Mapper::new(PAGING_BASE);
    assert_eq!(mapper.translate(&mem, KERNEL_VIRT), Ok(0x10_0000));
}

#[test]
fn map_page_runs_out_of_page_tables() {
    let mut mem = low_memory();
    start_page_tables(&mut mem).unwrap();
    assert_eq!(
        map_page_checked(&mut mem, KERNEL_VIRT, 0x10_0000, 10),
        Err(PagingError::OutOfPageTables)
    );
    // Three tables are needed and the last frame is never handed out.
    assert_eq!(
        map_page_checked(&mut mem, KERNEL_VIRT, 0x10_0000, 7),
        Err(PagingError::OutOfPageTables)
    );
    assert_eq!(mem.read(PAGING_BASE + 8 * 511), Some(0));
    assert_eq!(map_page_checked(&mut mem, KERNEL_VIRT, 0x10_0000, 6), Ok(9));
    // With all tables there, a page can still be mapped.
    assert_eq!(map_page(&mut mem, KERNEL_VIRT + 0x1000, 0x10_1000, 9), Ok(9));
    assert_eq!(
        map_page_checked(&mut mem, KERNEL_VIRT + 0x20_0000, 0x30_0000, 9),
        Err(PagingError::OutOfPageTables)
    );
}

#[test]
fn kernel_in_the_identity_mapping_is_refused() {
    let mut mem = low_memory();
    assert_eq!(
        build_page_tables(&mut mem, 0x10_0000, 0x10_0000, 4096, ENTRY_VIRT, 0x20_0000),
        Err(PagingError::HugePage)
    );
    assert_eq!(
        build_page_tables(&mut mem, KERNEL_VIRT, 0x10_0000, 4096, 0xffff_f000, 0x20_0000),
        Err(PagingError::HugePage)
    );
}

#[test]
fn entry_data_in_a_kernel_page_is_refused() {
    let mut mem = low_memory();
    assert_eq!(
        build_page_tables(&mut mem, KERNEL_VIRT, 0x10_0000, 8192, KERNEL_VIRT + 0x1000, 0x20_0000),
        Err(PagingError::Conflict)
    );
    // Unless the entry data lies in the frame that the page has.
    assert_eq!(
        build_page_tables(&mut mem, KERNEL_VIRT, 0x10_0000, 8192, KERNEL_VIRT + 0x1000, 0x10_1000),
        Ok(5)
    );
}

#[test]
fn too_many_tables_are_refused() {
    let mut mem = low_memory();
    // The kernel crosses from one PDP to the next: six tables, and three
    // more for the entry data.
    let kernel_virt = 0x0000_00ff_ffff_f000u64;
    assert_eq!(
        build_page_tables(&mut mem, kernel_virt, 0x10_0000, 8192, ENTRY_VIRT, 0x20_0000),
        Err(PagingError::OutOfPageTables)
    );
    let mut mem = low_memory();
    start_page_tables(&mut mem).unwrap();
    assert_eq!(map_pages(&mut mem, kernel_virt, 0x10_0000, 2, 2), Ok(8));
    let mapper = Mapper::new(PAGING_BASE);
    assert_eq!(mapper.translate(&mem, kernel_virt), Ok(0x10_0000));
    assert_eq!(mapper.translate(&mem, kernel_virt + 0x1000), Ok(0x10_1000));
}

#[test]
fn tables_need_their_frames() {
    let mut mem = PhysMemory::new();
    mem.add_region(PAGING_BASE, 9).unwrap();
    assert_eq!(
        build_page_tables(&mut mem, KERNEL_VIRT, 0x10_0000, 4096, ENTRY_VIRT, 0x20_0000),
        Err(PagingError::NoMemory)
    );
    assert_eq!(mem.read(PAGING_BASE), Some(0));
}

#[test]
fn map_page_links_each_table_word_for_word() {
    let mut mem = PhysMemory::new();
    mem.add_region(0x70000, 10).unwrap();
    assert!(mem.write(0x70000, 0x71003));
    assert_eq!(map_page(&mut mem, 0xffff_ffff_f800_0000, 0x20_0000, 2), Ok(5));
    assert_eq!(mem.read(0x70000 + 511 * 8), Some(0x72003));
    assert_eq!(mem.read(0x72000 + 511 * 8), Some(0x73003));
    assert_eq!(mem.read(0x73000 + 448 * 8), Some(0x74003));
    assert_eq!(mem.read(0x74000), Some(0x20_0003));
    // Every other word is as it was.
    let written = [0x70000u64, 0x70000 + 511 * 8, 0x72000 + 511 * 8, 0x73000 + 448 * 8, 0x74000];
    let mut addr = 0x70000u64;
    while addr < 0x7a000 {
        if !written.contains(&addr) {
            assert_eq!(mem.read(addr), Some(0));
        }
        addr += 8;
    }
}

#[test]
fn pages_are_mapped_up_to_the_end_of_the_address_space() {
    let mut mem = low_memory();
    assert_eq!(start_page_tables(&mut mem), Ok(2));
    let top = 0xffff_ffff_ffff_e000u64;
    assert_eq!(map_pages(&mut mem, top, 0x10_0000, 2, 2), Ok(5));
    let mapper = Mapper::new(PAGING_BASE);
    assert_eq!(mapper.translate(&mem, top), Ok(0x10_0000));
    assert_eq!(mapper.translate(&mem, u64::MAX), Ok(0x10_1fff));
}
