use rk_boot::paging::{
    PageTable, PageTableEntry, VirtAddr, ENTRY_ADDR_MASK, ENTRY_HUGE, ENTRY_PRESENT,
    ENTRY_WRITABLE, HUGE_PAGE_FLAGS, TABLE_FLAGS,
};
use rk_boot::phys_mem::PhysMemory;

#[test]
fn entry_packs_address_and_flags() {
    let entry = PageTableEntry::new(0x20_3000, 0b11);
    assert_eq!(entry.data(), 0x20_3003);
    assert_eq!(entry.addr(), 0x20_3000);
    assert!(entry.is_present());
    assert!(entry.is_writable());
    assert!(!entry.is_huge());
}

#[test]
fn entry_flags_are_read_bit_by_bit() {
    assert!(!PageTableEntry::new(0x1000, 0).is_present());
    assert!(!PageTableEntry::new(0x1000, ENTRY_WRITABLE).is_present());
    assert!(PageTableEntry::new(0x1000, ENTRY_PRESENT).is_present());
    assert!(!PageTableEntry::new(0x1000, ENTRY_PRESENT).is_writable());
    assert!(PageTableEntry::new(0, HUGE_PAGE_FLAGS).is_huge());
    assert!(!PageTableEntry::new(0, TABLE_FLAGS).is_huge());
    assert_eq!(TABLE_FLAGS, ENTRY_PRESENT | ENTRY_WRITABLE);
    assert_eq!(HUGE_PAGE_FLAGS, ENTRY_PRESENT | ENTRY_WRITABLE | ENTRY_HUGE);
}

#[test]
fn entry_address_is_bits_12_to_51() {
    let entry = PageTableEntry::from_data(0xffff_ffff_ffff_ffff);
    assert_eq!(entry.addr(), 0x000f_ffff_ffff_f000);
    assert_eq!(entry.addr(), ENTRY_ADDR_MASK);
    // The flag above the address, bit 63, is no part of the address.
    let high = PageTableEntry::new(0x5000, 0x8000_0000_0000_0003);
    assert_eq!(high.addr(), 0x5000);
    assert!(high.is_present());
}

#[test]
fn entry_read_from_memory() {
    let mut mem = PhysMemory::new();
    mem.add_region(0x1000, 1).unwrap();
    mem.write(0x1010, 0x7003);
    let entry = PageTableEntry::read(&mem, 0x1010).unwrap();
    assert_eq!(entry.data(), 0x7003);
    assert_eq!(entry.addr(), 0x7000);
    assert!(PageTableEntry::read(&mem, 0x2000).is_none());
}

#[test]
fn table_entries_lie_eight_bytes_apart() {
    let table = PageTable::new(0x70000);
    assert_eq!(table.addr(), 0x70000);
    assert_eq!(table.entry_addr(0), 0x70000);
    assert_eq!(table.entry_addr(1), 0x70008);
    assert_eq!(table.entry_addr(511), 0x70000 + 511 * 8);
}

#[test]
fn table_set_entry_then_entry() {
    let mut mem = PhysMemory::new();
    mem.add_region(0x70000, 1).unwrap();
    let table = PageTable::new(0x70000);
    assert_eq!(table.entry(&mem, 256).data(), 0);
    table.set_entry(&mut mem, 256, PageTableEntry::new(0x71000, 0b11));
    assert_eq!(table.entry(&mem, 256).data(), 0x71003);
    assert_eq!(table.entry(&mem, 255).data(), 0);
    assert_eq!(mem.read(0x70000 + 256 * 8), Some(0x71003));
    // The entry is overwritten without a trace.
    table.set_entry(&mut mem, 256, PageTableEntry::new(0x72000, 0b1));
    assert_eq!(table.entry(&mem, 256).data(), 0x72001);
}

#[test]
fn virtual_address_indices() {
    let addr = VirtAddr::new(0xffff_ff80_0000_0000);
    assert_eq!(addr.addr(), 0xffff_ff80_0000_0000);
    assert_eq!(addr.pml4_index(), 511);
    assert_eq!(addr.pdp_index(), 0);
    assert_eq!(addr.pd_index(), 0);
    assert_eq!(addr.pt_index(), 0);

    let addr = VirtAddr::new(0xffff_8000_0000_0000);
    assert_eq!(addr.pml4_index(), 256);

    // 0x0000_0080_4020_1000: one in every index.
    let addr = VirtAddr::new((1 << 39) | (1 << 30) | (1 << 21) | (1 << 12));
    assert_eq!(addr.pml4_index(), 1);
    assert_eq!(addr.pdp_index(), 1);
    assert_eq!(addr.pd_index(), 1);
    assert_eq!(addr.pt_index(), 1);

    let addr = VirtAddr::new(0xffff_ffff_ffff_ffff);
    assert_eq!(addr.pml4_index(), 511);
    assert_eq!(addr.pdp_index(), 511);
    assert_eq!(addr.pd_index(), 511);
    assert_eq!(addr.pt_index(), 511);

    let addr = VirtAddr::new(0xffff_ffff_f800_0000);
    assert_eq!(addr.pml4_index(), 511);
    assert_eq!(addr.pdp_index(), 511);
    assert_eq!(addr.pd_index(), 0o700);
    assert_eq!(addr.pt_index(), 0);
}
