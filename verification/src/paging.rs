//! Page tables, their entries and the indices of a virtual address.
//!
//! An entry is a 64-bit word: the address of a frame in bits 12 to 51 and
//! flags in the bits around it. A table is a frame of 512 entries. A
//! virtual address selects one entry at each of the four levels with four
//! 9-bit slices.

use vstd::prelude::*;
use crate::phys_mem::{PhysMemory, MAX_PHYS_ADDR, frame_backed, word_addr};

verus! {

/// Flag bit 0: the entry maps a page or references a table.
pub const ENTRY_PRESENT: u64 = 0x1;

/// Flag bit 1: writes are allowed through the entry.
pub const ENTRY_WRITABLE: u64 = 0x2;

/// Flag bit 7: the entry maps a huge page instead of referencing a table.
pub const ENTRY_HUGE: u64 = 0x80;

/// The bits of an entry that hold the frame address.
pub const ENTRY_ADDR_MASK: u64 = 0x000f_ffff_ffff_f000;

/// The flags of an entry that references a table: present and writable.
pub const TABLE_FLAGS: u64 = 0x3;

/// The flags of a huge page of the physical mapping: present, writable and
/// huge.
pub const HUGE_PAGE_FLAGS: u64 = 0x83;

/// The number of entries in a table.
pub const ENTRY_COUNT: u16 = 512;

/// Whether the entry word `bits` has the present flag.
pub open spec fn entry_present(bits: u64) -> bool {
    bits & ENTRY_PRESENT == ENTRY_PRESENT
}

/// Whether the entry word `bits` has the writable flag.
pub open spec fn entry_writable(bits: u64) -> bool {
    bits & ENTRY_WRITABLE == ENTRY_WRITABLE
}

/// Whether the entry word `bits` has the huge-page flag.
pub open spec fn entry_huge(bits: u64) -> bool {
    bits & ENTRY_HUGE == ENTRY_HUGE
}

/// The frame address that the entry word `bits` holds.
pub open spec fn entry_addr(bits: u64) -> u64 {
    bits & ENTRY_ADDR_MASK
}

/// Whether `addr` is the address of a frame that an entry can hold: a
/// multiple of the frame size below the highest physical address.
pub open spec fn frame_addr(addr: u64) -> bool {
    addr % 4096 == 0 && addr < MAX_PHYS_ADDR
}

/// Whether `flags` leaves the address bits of an entry alone.
pub open spec fn flags_only(flags: u64) -> bool {
    flags & ENTRY_ADDR_MASK == 0
}

/// The address in an entry is the address of a frame.
pub proof fn lemma_entry_addr_is_frame(bits: u64)
    ensures
        frame_addr(entry_addr(bits)),
{
    assert((bits & 0x000f_ffff_ffff_f000) % 4096 == 0 && (bits & 0x000f_ffff_ffff_f000)
        < 0x10_0000_0000_0000) by (bit_vector);
}

/// Packing a frame address with flags that leave the address bits alone,
/// then unpacking, gives back the address and each flag.
pub proof fn lemma_pack_unpack(addr: u64, flags: u64)
    requires
        frame_addr(addr),
        flags_only(flags),
    ensures
        entry_addr(addr | flags) == addr,
        entry_present(addr | flags) == entry_present(flags),
        entry_writable(addr | flags) == entry_writable(flags),
        entry_huge(addr | flags) == entry_huge(flags),
{
    assert(addr % 4096 == 0 && addr < 0x10_0000_0000_0000 && flags & 0x000f_ffff_ffff_f000 == 0
        ==> (addr | flags) & 0x000f_ffff_ffff_f000 == addr && (addr | flags) & 1 == flags & 1 && (
    addr | flags) & 2 == flags & 2 && (addr | flags) & 0x80 == flags & 0x80) by (bit_vector);
}

/// An entry packed with the present flag is present, whatever its address
/// bits.
pub proof fn lemma_present_kept(addr: u64, flags: u64)
    requires
        entry_present(flags),
    ensures
        entry_present(addr | flags),
{
    assert(flags & 1 == 1 ==> (addr | flags) & 1 == 1) by (bit_vector);
}

/// What the flags of table references and of huge pages hold, and that the
/// zero word is not present.
pub proof fn lemma_known_flags()
    ensures
        flags_only(TABLE_FLAGS),
        entry_present(TABLE_FLAGS),
        entry_writable(TABLE_FLAGS),
        !entry_huge(TABLE_FLAGS),
        flags_only(HUGE_PAGE_FLAGS),
        entry_present(HUGE_PAGE_FLAGS),
        entry_writable(HUGE_PAGE_FLAGS),
        entry_huge(HUGE_PAGE_FLAGS),
        !entry_present(0),
{
    assert(3u64 & 0x000f_ffff_ffff_f000 == 0 && 3u64 & 1 == 1 && 3u64 & 2 == 2 && 3u64 & 0x80 == 0
        && 0x83u64 & 0x000f_ffff_ffff_f000 == 0 && 0x83u64 & 1 == 1 && 0x83u64 & 2 == 2 && 0x83u64
        & 0x80 == 0x80 && 0u64 & 1 == 0) by (bit_vector);
}

/// An entry in a page table.
#[derive(Clone, Copy, Debug)]
pub struct PageTableEntry(u64);

impl View for PageTableEntry {
    type V = u64;

    /// The entry as its raw 64-bit word.
    closed spec fn view(&self) -> u64 {
        self.0
    }
}

impl PageTableEntry {
    /// Creates a new page table entry with the given address and flags.
    pub fn new(addr: u64, flags: u64) -> (entry: Self)
        ensures
            entry@ == addr | flags,
    {
        Self(addr | flags)
    }

    /// The entry with the raw 64-bit word `bits`.
    pub fn from_data(bits: u64) -> (entry: Self)
        ensures
            entry@ == bits,
    {
        Self(bits)
    }

    /// Reads a page table entry from the word at `addr`, if the memory has
    /// one there.
    pub fn read(mem: &PhysMemory, addr: u64) -> (entry: Option<Self>)
        requires
            mem.wf(),
        ensures
            mem@.dom().contains(addr) ==> entry is Some && entry->0@ == mem@[addr],
            !mem@.dom().contains(addr) ==> entry is None,
    {
        match mem.read(addr) {
            Some(bits) => Some(Self(bits)),
            None => None,
        }
    }

    /// Whether the entry maps a page or references a table.
    #[inline]
    pub fn is_present(&self) -> (present: bool)
        ensures
            present == entry_present(self@),
    {
        self.0 & ENTRY_PRESENT == ENTRY_PRESENT
    }

    /// Whether writes are allowed through the entry.
    #[inline]
    pub fn is_writable(&self) -> (writable: bool)
        ensures
            writable == entry_writable(self@),
    {
        self.0 & ENTRY_WRITABLE == ENTRY_WRITABLE
    }

    /// Whether the entry maps a huge page.
    #[inline]
    pub fn is_huge(&self) -> (huge: bool)
        ensures
            huge == entry_huge(self@),
    {
        self.0 & ENTRY_HUGE == ENTRY_HUGE
    }

    /// The frame address in the entry: the word without its flags.
    #[inline]
    pub fn addr(&self) -> (addr: u64)
        ensures
            addr == entry_addr(self@),
            frame_addr(addr),
    {
        proof {
            lemma_entry_addr_is_frame(self.0);
        }
        self.0 & ENTRY_ADDR_MASK
    }

    /// Returns the raw bit data of the entry.
    #[inline]
    pub fn data(&self) -> (bits: u64)
        ensures
            bits == self@,
    {
        self.0
    }
}

/// A page table seen through the address of its frame. The value holds no
/// entry itself: every access names the memory that the table lies in.
#[derive(Clone, Copy, Debug)]
pub struct PageTable {
    addr: u64,
}

impl PageTable {
    /// The address of the table's frame.
    pub closed spec fn base(&self) -> u64 {
        self.addr
    }

    /// A view of the table in the frame at `addr`.
    pub fn new(addr: u64) -> (table: Self)
        ensures
            table.base() == addr,
    {
        Self { addr }
    }

    /// The address of the table's frame.
    pub fn addr(&self) -> (addr: u64)
        ensures
            addr == self.base(),
    {
        self.addr
    }

    /// Returns the full address for the entry at a given index.
    #[inline]
    pub fn entry_addr(&self, i: u16) -> (addr: u64)
        requires
            self.base() + 8 * i <= u64::MAX,
        ensures
            addr == self.base() + 8 * i,
    {
        self.addr + 8 * i as u64
    }

    /// Returns the entry in the table at the given index.
    pub fn entry(&self, mem: &PhysMemory, i: u16) -> (entry: PageTableEntry)
        requires
            mem.wf(),
            i < 512,
            frame_backed(mem@, self.base()),
        ensures
            entry@ == mem@[word_addr(self.base(), i as int)],
    {
        proof {
            mem.lemma_whole_frames(word_addr(self.base(), i as int));
        }
        let entry = PageTableEntry::read(mem, self.entry_addr(i));
        entry.unwrap()
    }

    /// Set an entry of the page table, overwriting any existing entry at the
    /// same index.
    pub fn set_entry(&self, mem: &mut PhysMemory, i: u16, entry: PageTableEntry)
        requires
            old(mem).wf(),
            i < 512,
            frame_backed(old(mem)@, self.base()),
        ensures
            final(mem).wf(),
            final(mem)@ == old(mem)@.insert(word_addr(self.base(), i as int), entry@),
    {
        proof {
            mem.lemma_whole_frames(word_addr(self.base(), i as int));
        }
        mem.write(self.entry_addr(i), entry.data());
    }
}

/// The index into the PML4 for the virtual address `addr`: bits 39 to 47.
pub open spec fn pml4_index_of(addr: u64) -> u16 {
    ((addr >> 39) % 512) as u16
}

/// The index into the PDP for the virtual address `addr`: bits 30 to 38.
pub open spec fn pdp_index_of(addr: u64) -> u16 {
    ((addr >> 30) % 512) as u16
}

/// The index into the PD for the virtual address `addr`: bits 21 to 29.
pub open spec fn pd_index_of(addr: u64) -> u16 {
    ((addr >> 21) % 512) as u16
}

/// The index into the PT for the virtual address `addr`: bits 12 to 20.
pub open spec fn pt_index_of(addr: u64) -> u16 {
    ((addr >> 12) % 512) as u16
}

/// Represents a virtual address (x86-64).
#[derive(Clone, Copy, Debug)]
pub struct VirtAddr(u64);

impl View for VirtAddr {
    type V = u64;

    /// The address as a number.
    closed spec fn view(&self) -> u64 {
        self.0
    }
}

impl VirtAddr {
    /// The virtual address `addr`.
    pub fn new(addr: u64) -> (virt: Self)
        ensures
            virt@ == addr,
    {
        Self(addr)
    }

    /// Returns the raw address represented.
    pub fn addr(&self) -> (addr: u64)
        ensures
            addr == self@,
    {
        self.0
    }

    /// Returns the index into the PML4 for the address.
    pub fn pml4_index(&self) -> (index: u16)
        ensures
            index == pml4_index_of(self@),
            index < 512,
    {
        ((self.0 >> 39) % 512) as u16
    }

    /// Returns the index into the PDP for the address.
    pub fn pdp_index(&self) -> (index: u16)
        ensures
            index == pdp_index_of(self@),
            index < 512,
    {
        ((self.0 >> 30) % 512) as u16
    }

    /// Returns the index into the PD for the address.
    pub fn pd_index(&self) -> (index: u16)
        ensures
            index == pd_index_of(self@),
            index < 512,
    {
        ((self.0 >> 21) % 512) as u16
    }

    /// Returns the index into the PT for the address.
    pub fn pt_index(&self) -> (index: u16)
        ensures
            index == pt_index_of(self@),
            index < 512,
    {
        ((self.0 >> 12) % 512) as u16
    }
}

} // verus!
