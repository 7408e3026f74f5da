//! Segment descriptors for the global descriptor table.
//!
//! In long mode a segment descriptor is a 64-bit word of which only the
//! flags matter; base and limit are ignored by the processor.

use vstd::prelude::*;

verus! {

/// The accessed flag of a descriptor: bit 40.
pub const ACCESSED: u64 = 0x0000_0100_0000_0000;

/// The readable flag of a code segment and the writable flag of a data
/// segment: bit 41.
pub const READ_WRITE: u64 = 0x0000_0200_0000_0000;

/// The flag that tells a code segment from a data segment: bit 43.
pub const EXECUTABLE: u64 = 0x0000_0800_0000_0000;

/// The flag of code and data segments, as opposed to system segments: bit
/// 44.
pub const CODE_OR_DATA: u64 = 0x0000_1000_0000_0000;

/// The present flag: bit 47.
pub const PRESENT: u64 = 0x0000_8000_0000_0000;

/// The long-mode flag: bit 53.
pub const LONG_MODE: u64 = 0x0020_0000_0000_0000;

/// The granularity flag: bit 55.
pub const GRANULARITY: u64 = 0x0080_0000_0000_0000;

/// The segment limit at its maximum: bits 0 to 15 and 48 to 51.
pub const LIMIT_MAX: u64 = 0x000f_0000_0000_ffff;

/// The number of descriptors in the kernel's table.
pub const GDT_ENTRIES: usize = 3;

/// The selector of the kernel code segment: offset 0x8 in the table.
pub const KERNEL_CODE_SELECTOR: u16 = 0x8;

/// The selector of the kernel data segment: offset 0x10 in the table.
pub const KERNEL_DATA_SELECTOR: u16 = 0x10;

/// Returns a null descriptor.
pub fn null() -> (descriptor: u64)
    ensures
        descriptor == 0,
{
    0
}

/// Returns a kernel code segment descriptor.
pub fn kernel_code_segment() -> (descriptor: u64)
    ensures
        descriptor == 0x00af_9b00_0000_ffff,
        descriptor == GRANULARITY | LONG_MODE | PRESENT | CODE_OR_DATA | EXECUTABLE | READ_WRITE
            | ACCESSED | LIMIT_MAX,
{
    // Create a segment with the Granularity, Long, Present, Type (which
    // signifies a code segment when set), Readable, and Accessed bits set.
    // The segment limit is also set to its maximum value.
    assert(0x00af_9b00_0000_ffffu64 == 0x0080_0000_0000_0000u64 | 0x0020_0000_0000_0000
        | 0x0000_8000_0000_0000 | 0x0000_1000_0000_0000 | 0x0000_0800_0000_0000
        | 0x0000_0200_0000_0000 | 0x0000_0100_0000_0000 | 0x000f_0000_0000_ffff) by (bit_vector);
    0x00af_9b00_0000_ffff
}

/// Returns kernel data segment descriptor.
pub fn kernel_data_segment() -> (descriptor: u64)
    ensures
        descriptor == 0x00af_9300_0000_ffff,
        descriptor == GRANULARITY | LONG_MODE | PRESENT | CODE_OR_DATA | READ_WRITE | ACCESSED
            | LIMIT_MAX,
{
    // Create a segment with the Granularity, Long, Present, Writable, and
    // Accessed bits set. The segment limit is also set to its maximum
    // value. The Type bit indicates a data segment when clear, and is
    // therefore not set.
    assert(0x00af_9300_0000_ffffu64 == 0x0080_0000_0000_0000u64 | 0x0020_0000_0000_0000
        | 0x0000_8000_0000_0000 | 0x0000_1000_0000_0000 | 0x0000_0200_0000_0000
        | 0x0000_0100_0000_0000 | 0x000f_0000_0000_ffff) by (bit_vector);
    0x00af_9300_0000_ffff
}

/// The kernel's table: the null descriptor, the code segment and the data
/// segment.
pub fn kernel_table() -> (table: [u64; 3])
    ensures
        table@ == seq![0u64, 0x00af_9b00_0000_ffffu64, 0x00af_9300_0000_ffffu64],
{
    let table = [null(), kernel_code_segment(), kernel_data_segment()];
    assert(table@ =~= seq![0u64, 0x00af_9b00_0000_ffffu64, 0x00af_9300_0000_ffffu64]);
    table
}

/// What the processor is given to find a descriptor table.
#[derive(Clone, Copy, Debug, PartialEq, Eq, Structural)]
pub struct DescriptorTablePointer {
    /// The size of the table - 1.
    pub size: u16,
    /// Pointer to the table.
    pub offset: u64,
}

/// The pointer to a table of `size` bytes at `addr`. A table holds at
/// least one byte and at most 65536.
pub fn table_pointer(size: usize, addr: u64) -> (pointer: DescriptorTablePointer)
    requires
        1 <= size <= 0x1_0000,
    ensures
        pointer.size == size - 1,
        pointer.offset == addr,
{
    DescriptorTablePointer { size: (size - 1) as u16, offset: addr }
}

} // verus!
