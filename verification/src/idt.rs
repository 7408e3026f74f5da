//! The interrupt descriptor table.
//!
//! The table has 256 entries. The first 32 are the exceptions of the
//! processor and have names; the remaining 224 are the general interrupts.
//! A handler is known here by its address.

use vstd::prelude::*;
use crate::gdt::DescriptorTablePointer;

verus! {

/// The options of an entry that is not present: an interrupt gate, which
/// is the bits that must be 1.
pub const GATE_OPTIONS: u16 = 0x0e00;

/// The present bit in the options of an entry.
pub const GATE_PRESENT: u16 = 0x8000;

/// The code selector that handlers run with.
pub const HANDLER_SELECTOR: u16 = 0x38;

/// The size of the table in bytes.
pub const IDT_SIZE: usize = 4096;

/// An IDT entry.
#[derive(Copy, Clone, Debug, PartialEq, Eq, Structural)]
pub struct Descriptor {
    offset_1: u16,
    selector: u16,
    options: u16,
    offset_2: u16,
    offset_3: u32,
    zero: u32,
}

impl Descriptor {
    /// The address of the handler: the three parts of the offset put
    /// together.
    pub closed spec fn handler(&self) -> u64 {
        (self.offset_1 + 0x1_0000 * self.offset_2 + 0x1_0000_0000 * self.offset_3) as u64
    }

    /// The code selector that the handler runs with.
    pub closed spec fn selector(&self) -> u16 {
        self.selector
    }

    /// The options of the entry: the kind of gate and the present bit.
    pub closed spec fn options(&self) -> u16 {
        self.options
    }

    /// Whether the entry is present.
    pub open spec fn present(&self) -> bool {
        self.options() & GATE_PRESENT == GATE_PRESENT
    }

    /// Returns an entry with all bits set to 0, except the bits which must
    /// be 1.
    pub fn not_present() -> (entry: Self)
        ensures
            entry.wf(),
            entry.handler() == 0,
            entry.selector() == 0,
            entry.options() == GATE_OPTIONS,
            !entry.present(),
    {
        assert(0x0e00u16 & 0x8000 != 0x8000) by (bit_vector);
        Self { offset_1: 0, selector: 0, options: GATE_OPTIONS, offset_2: 0, offset_3: 0, zero: 0 }
    }

    /// Sets the handler function using the address, and marks the entry
    /// present.
    pub fn set_handler(&mut self, addr: u64)
        ensures
            final(self).wf() == old(self).wf(),
            final(self).handler() == addr,
            final(self).selector() == HANDLER_SELECTOR,
            final(self).options() == old(self).options() | GATE_PRESENT,
            final(self).present(),
    {
        self.offset_1 = (addr % 0x1_0000) as u16;
        self.offset_2 = ((addr / 0x1_0000) % 0x1_0000) as u16;
        self.offset_3 = (addr / 0x1_0000_0000) as u32;

        self.selector = HANDLER_SELECTOR;

        // Set the present bit
        let options = self.options;
        assert((options | 0x8000u16) & 0x8000 == 0x8000) by (bit_vector);
        self.options = options | GATE_PRESENT;
    }

    /// The address of the handler.
    pub fn handler_addr(&self) -> (addr: u64)
        ensures
            addr == self.handler(),
    {
        self.offset_1 as u64 + 0x1_0000 * (self.offset_2 as u64) + 0x1_0000_0000 * (
        self.offset_3 as u64)
    }

    /// Whether the entry is present.
    pub fn is_present(&self) -> (present: bool)
        ensures
            present == self.present(),
    {
        self.options & GATE_PRESENT == GATE_PRESENT
    }

    /// The two 64-bit words of the entry as the processor reads them: in
    /// the first the low 16 bits of the handler's address, the selector,
    /// the options and the next 16 bits of the address, in the second the
    /// high 32 bits of the address.
    pub open spec fn words(&self) -> (u64, u64) {
        (
            (self.handler() % 0x1_0000 + 0x1_0000 * self.selector() + 0x1_0000_0000
                * self.options() + 0x1_0000_0000_0000 * ((self.handler() / 0x1_0000)
                % 0x1_0000)) as u64,
            (self.handler() / 0x1_0000_0000) as u64,
        )
    }

    /// Whether the reserved part of the entry is 0, as it is in every entry
    /// that this module makes.
    pub closed spec fn wf(&self) -> bool {
        self.zero == 0
    }

    proof fn lemma_parts(&self)
        ensures
            self.handler() % 0x1_0000 == self.offset_1,
            (self.handler() / 0x1_0000) % 0x1_0000 == self.offset_2,
            self.handler() / 0x1_0000_0000 == self.offset_3,
    {
        let low = self.offset_1 as int;
        let mid = self.offset_2 as int;
        let high = self.offset_3 as int;
        let addr = low + 0x1_0000 * mid + 0x1_0000_0000 * high;
        assert(addr == self.handler());
        assert(addr == 0x1_0000 * (mid + 0x1_0000 * high) + low);
        assert(addr / 0x1_0000 == mid + 0x1_0000 * high);
        assert(addr % 0x1_0000 == low);
        assert((mid + 0x1_0000 * high) / 0x1_0000 == high);
        assert((mid + 0x1_0000 * high) % 0x1_0000 == mid);
        assert(addr / 0x1_0000_0000 == (addr / 0x1_0000) / 0x1_0000);
    }

    /// The two 64-bit words of the entry as the processor reads them.
    pub fn to_words(&self) -> (words: (u64, u64))
        requires
            self.wf(),
        ensures
            words == self.words(),
    {
        proof {
            self.lemma_parts();
        }
        (
            self.offset_1 as u64 + 0x1_0000 * (self.selector as u64) + 0x1_0000_0000 * (
            self.options as u64) + 0x1_0000_0000_0000 * (self.offset_2 as u64),
            self.offset_3 as u64 + 0x1_0000_0000 * (self.zero as u64),
        )
    }
}

/// An IDT with 256 entries.
///
/// The first 32 entries are the CPU exceptions and are named. The
/// remaining 224 interrupts are available through the `interrupts` array.
#[derive(Copy, Clone, Debug)]
pub struct InterruptDescriptorTable {
    pub divide_by_zero_error: Descriptor,
    pub debug: Descriptor,
    pub non_maskable_interrupt: Descriptor,
    pub breakpoint: Descriptor,
    pub overflow: Descriptor,
    pub bound_range_exceeded: Descriptor,
    pub invalid_opcode: Descriptor,
    pub device_not_available: Descriptor,
    /// Double Fault is an Abort type CPU exception, and is not recoverable.
    ///
    /// The error code is always zero and can be ignored.
    pub double_fault: Descriptor,
    pub coprocessor_segment_overrun: Descriptor,
    pub invalid_tss: Descriptor,
    pub segment_not_present: Descriptor,
    pub stack_segment_fault: Descriptor,
    pub general_protection_fault: Descriptor,
    pub page_fault: Descriptor,
    pub reserved15: Descriptor,
    pub x87_floating_point_exception: Descriptor,
    pub alignment_check: Descriptor,
    /// Machine Check is an abort type CPU exception and is not recoverable.
    pub machine_check: Descriptor,
    pub simd_floating_point_exception: Descriptor,
    pub virtualization_exception: Descriptor,
    pub reserved21_29: [Descriptor; 9],
    pub security_exception: Descriptor,
    pub reserved31: Descriptor,
    /// General interrupts, remember that the first index refers to the 32nd
    /// interrupt.
    pub interrupts: [Descriptor; 224],
}

impl InterruptDescriptorTable {
    /// The entry for interrupt number `vector`.
    pub open spec fn entry(&self, vector: int) -> Descriptor {
        if vector == 0 {
            self.divide_by_zero_error
        } else if vector == 1 {
            self.debug
        } else if vector == 2 {
            self.non_maskable_interrupt
        } else if vector == 3 {
            self.breakpoint
        } else if vector == 4 {
            self.overflow
        } else if vector == 5 {
            self.bound_range_exceeded
        } else if vector == 6 {
            self.invalid_opcode
        } else if vector == 7 {
            self.device_not_available
        } else if vector == 8 {
            self.double_fault
        } else if vector == 9 {
            self.coprocessor_segment_overrun
        } else if vector == 10 {
            self.invalid_tss
        } else if vector == 11 {
            self.segment_not_present
        } else if vector == 12 {
            self.stack_segment_fault
        } else if vector == 13 {
            self.general_protection_fault
        } else if vector == 14 {
            self.page_fault
        } else if vector == 15 {
            self.reserved15
        } else if vector == 16 {
            self.x87_floating_point_exception
        } else if vector == 17 {
            self.alignment_check
        } else if vector == 18 {
            self.machine_check
        } else if vector == 19 {
            self.simd_floating_point_exception
        } else if vector == 20 {
            self.virtualization_exception
        } else if vector <= 29 {
            self.reserved21_29@[vector - 21]
        } else if vector == 30 {
            self.security_exception
        } else if vector == 31 {
            self.reserved31
        } else {
            self.interrupts@[vector - 32]
        }
    }

    /// Creates a new IDT with all entries marked as not present.
    pub fn new() -> (table: Self)
        ensures
            forall|vector: int|
                0 <= vector < 256 ==> !(#[trigger] table.entry(vector)).present()
                    && table.entry(vector).wf() && table.entry(vector).options() == GATE_OPTIONS
                    && table.entry(vector).handler() == 0 && table.entry(vector).selector()
                    == 0,
    {
        Self {
            divide_by_zero_error: Descriptor::not_present(),
            debug: Descriptor::not_present(),
            non_maskable_interrupt: Descriptor::not_present(),
            breakpoint: Descriptor::not_present(),
            overflow: Descriptor::not_present(),
            bound_range_exceeded: Descriptor::not_present(),
            invalid_opcode: Descriptor::not_present(),
            device_not_available: Descriptor::not_present(),
            double_fault: Descriptor::not_present(),
            coprocessor_segment_overrun: Descriptor::not_present(),
            invalid_tss: Descriptor::not_present(),
            segment_not_present: Descriptor::not_present(),
            stack_segment_fault: Descriptor::not_present(),
            general_protection_fault: Descriptor::not_present(),
            page_fault: Descriptor::not_present(),
            reserved15: Descriptor::not_present(),
            x87_floating_point_exception: Descriptor::not_present(),
            alignment_check: Descriptor::not_present(),
            machine_check: Descriptor::not_present(),
            simd_floating_point_exception: Descriptor::not_present(),
            virtualization_exception: Descriptor::not_present(),
            reserved21_29: [Descriptor::not_present();9],
            security_exception: Descriptor::not_present(),
            reserved31: Descriptor::not_present(),
            interrupts: [Descriptor::not_present();224],
        }
    }

    /// The pointer that loads the table when it lies at `addr`.
    pub fn pointer(addr: u64) -> (pointer: DescriptorTablePointer)
        ensures
            pointer.size == IDT_SIZE - 1,
            pointer.offset == addr,
    {
        crate::gdt::table_pointer(IDT_SIZE, addr)
    }
}

/// What the processor pushes on the stack when it enters a handler.
#[derive(Copy, Clone, Debug, PartialEq, Eq, Structural)]
pub struct InterruptFrame {
    pub ip: u64,
    pub cs: u64,
    pub flags: u64,
    pub sp: u64,
    pub ss: u64,
}

} // verus!
