use rk_boot::gdt::{
    kernel_code_segment, kernel_data_segment, kernel_table, null, table_pointer,
    DescriptorTablePointer, ACCESSED, CODE_OR_DATA, EXECUTABLE, GRANULARITY, LIMIT_MAX, LONG_MODE,
    PRESENT, READ_WRITE,
};
use rk_boot::idt::{
    Descriptor, InterruptDescriptorTable, GATE_OPTIONS, GATE_PRESENT, HANDLER_SELECTOR, IDT_SIZE,
};

#[test]
fn segment_descriptors() {
    assert_eq!(null(), 0);
    assert_eq!(kernel_code_segment(), 0x00af_9b00_0000_ffff);
    assert_eq!(kernel_data_segment(), 0x00af_9300_0000_ffff);
    assert_eq!(
        kernel_code_segment(),
        GRANULARITY | LONG_MODE | PRESENT | CODE_OR_DATA | EXECUTABLE | READ_WRITE | ACCESSED
            | LIMIT_MAX
    );
    assert_eq!(kernel_code_segment() & !EXECUTABLE, kernel_data_segment());
    assert_eq!(kernel_table(), [0, 0x00af_9b00_0000_ffff, 0x00af_9300_0000_ffff]);
}

#[test]
fn table_pointer_holds_size_minus_one() {
    assert_eq!(
        table_pointer(24, 0x1000),
        DescriptorTablePointer { size: 23, offset: 0x1000 }
    );
    assert_eq!(table_pointer(1, 0).size, 0);
    assert_eq!(table_pointer(0x1_0000, 7).size, 0xffff);
    assert_eq!(
        InterruptDescriptorTable::pointer(0xffff_ffff_f800_1000),
        DescriptorTablePointer { size: 4095, offset: 0xffff_ffff_f800_1000 }
    );
    assert_eq!(IDT_SIZE, 256 * 16);
}

#[test]
fn descriptor_not_present() {
    let entry = Descriptor::not_present();
    assert!(!entry.is_present());
    assert_eq!(entry.handler_addr(), 0);
    assert_eq!(entry.to_words(), ((GATE_OPTIONS as u64) << 32, 0));
    assert_eq!(GATE_OPTIONS, 0b111 << 9);
}

#[test]
fn descriptor_set_handler() {
    let mut entry = Descriptor::not_present();
    entry.set_handler(0xffff_ffff_f812_3456);
    assert!(entry.is_present());
    assert_eq!(entry.handler_addr(), 0xffff_ffff_f812_3456);
    let (low, high) = entry.to_words();
    assert_eq!(low & 0xffff, 0x3456);
    assert_eq!((low >> 16) & 0xffff, HANDLER_SELECTOR as u64);
    assert_eq!((low >> 32) & 0xffff, (GATE_OPTIONS | GATE_PRESENT) as u64);
    assert_eq!(low >> 48, 0xf812);
    assert_eq!(high, 0xffff_ffff);
    // Setting another handler replaces the address and keeps the rest.
    entry.set_handler(0x1_0002_0003);
    assert_eq!(entry.handler_addr(), 0x1_0002_0003);
    assert!(entry.is_present());
    assert_eq!(entry.to_words().1, 1);
}

#[test]
fn new_table_has_no_entry_present() {
    let table = InterruptDescriptorTable::new();
    assert_eq!(table.divide_by_zero_error, Descriptor::not_present());
    assert_eq!(table.breakpoint, Descriptor::not_present());
    assert_eq!(table.double_fault, Descriptor::not_present());
    assert_eq!(table.page_fault, Descriptor::not_present());
    assert_eq!(table.reserved31, Descriptor::not_present());
    assert_eq!(table.reserved21_29.len(), 9);
    assert_eq!(table.interrupts.len(), 224);
    for entry in table.reserved21_29.iter().chain(table.interrupts.iter()) {
        assert!(!entry.is_present());
        assert_eq!(entry.handler_addr(), 0);
    }
}

#[test]
fn handlers_are_set_entry_by_entry() {
    let mut table = InterruptDescriptorTable::new();
    table.breakpoint.set_handler(0x1000);
    table.double_fault.set_handler(0x2000);
    table.interrupts[0].set_handler(0x3000);
    assert_eq!(table.breakpoint.handler_addr(), 0x1000);
    assert_eq!(table.double_fault.handler_addr(), 0x2000);
    assert_eq!(table.interrupts[0].handler_addr(), 0x3000);
    assert!(!table.debug.is_present());
    assert!(!table.interrupts[1].is_present());
}
