//! The loader: from the firmware to the kernel's entry point.
//!
//! The loader runs while the firmware's boot services are available. It
//! finds the kernel image, loads it, allocates what the handoff needs,
//! takes the machine over from the firmware, builds the temporary page
//! tables and jumps. The calls into the firmware are made by the caller:
//! here are the decisions between them, as a state machine, and what the
//! loader computes from the image.

use vstd::prelude::*;

use crate::elf::{
    entry_place, le_u16, le_u64, place, program_header_at, FileHeader, ProgramHeader,
    PROGRAM_HEADER_SIZE, PT_LOAD,
};
use crate::phys_map::{alias, phys_to_virt};
use crate::phys_mem::PhysMemory;

verus! {

/// The largest kernel image, and the largest kernel, that the loader
/// takes: 2 MiB.
pub const KERNEL_MAX_SIZE: u64 = 0x20_0000;

/// The number of pages that are allocated for the kernel image.
pub const IMAGE_PAGES: u64 = 512;

/// The name of the file on the loader's volume that holds the kernel
/// image.
pub const KERNEL_FILE_NAME: &'static str = "RK_KERNEL.ELF";

/// The marker that the loader puts into the entry data.
pub const GREETING: u32 = 0x1f427;

/// The name of the symbol of the kernel at whose address the entry data is
/// mapped.
pub const ENTRY_DATA_SYMBOL: &'static str = "entry_data";

/// The data structure passed to the kernel on entry.
///
/// In memory it takes four 64-bit words: the greeting at offset 0, the
/// physical address of the frame buffer at offset 8, the horizontal and
/// the vertical resolution at offsets 16 and 20, and the number of pixels
/// per scan line at offset 24.
#[derive(Clone, Copy, Debug, PartialEq, Eq, Structural)]
pub struct EntryData {
    pub greeting: u32,
    pub fb_base: u64,
    pub fb_horizontal_resolution: u32,
    pub fb_vertical_resolution: u32,
    pub fb_pixels_per_scan_line: u32,
}

/// The four words that hold `data` in memory.
pub open spec fn entry_words(data: EntryData) -> Seq<u64> {
    seq![
        data.greeting as u64,
        data.fb_base,
        (data.fb_horizontal_resolution + 0x1_0000_0000 * data.fb_vertical_resolution) as u64,
        data.fb_pixels_per_scan_line as u64,
    ]
}

/// The entry data that four words of memory hold. What lies between the
/// fields is ignored.
pub open spec fn entry_data_of(words: Seq<u64>) -> EntryData {
    EntryData {
        greeting: (words[0] % 0x1_0000_0000) as u32,
        fb_base: words[1],
        fb_horizontal_resolution: (words[2] % 0x1_0000_0000) as u32,
        fb_vertical_resolution: (words[2] / 0x1_0000_0000) as u32,
        fb_pixels_per_scan_line: (words[3] % 0x1_0000_0000) as u32,
    }
}

/// The entry data read back from the words that hold it is the entry data.
pub proof fn lemma_entry_data_round_trip(data: EntryData)
    ensures
        entry_data_of(entry_words(data)) == data,
{
}

impl EntryData {
    /// The entry data for a frame buffer, with the greeting in it.
    pub fn new(
        fb_base: u64,
        fb_horizontal_resolution: u32,
        fb_vertical_resolution: u32,
        fb_pixels_per_scan_line: u32,
    ) -> (data: Self)
        ensures
            data == (EntryData {
                greeting: GREETING,
                fb_base,
                fb_horizontal_resolution,
                fb_vertical_resolution,
                fb_pixels_per_scan_line,
            }),
    {
        EntryData {
            greeting: GREETING,
            fb_base,
            fb_horizontal_resolution,
            fb_vertical_resolution,
            fb_pixels_per_scan_line,
        }
    }

    /// The four words that hold the entry data in memory.
    pub fn to_words(&self) -> (words: [u64; 4])
        ensures
            words@ == entry_words(*self),
    {
        let words = [
            self.greeting as u64,
            self.fb_base,
            self.fb_horizontal_resolution as u64 + 0x1_0000_0000 * (
            self.fb_vertical_resolution as u64),
            self.fb_pixels_per_scan_line as u64,
        ];
        assert(words@ =~= entry_words(*self));
        words
    }

    /// The entry data that four words of memory hold.
    pub fn from_words(words: [u64; 4]) -> (data: Self)
        ensures
            data == entry_data_of(words@),
    {
        EntryData {
            greeting: (words[0] % 0x1_0000_0000) as u32,
            fb_base: words[1],
            fb_horizontal_resolution: (words[2] % 0x1_0000_0000) as u32,
            fb_vertical_resolution: (words[2] / 0x1_0000_0000) as u32,
            fb_pixels_per_scan_line: (words[3] % 0x1_0000_0000) as u32,
        }
    }

    /// The virtual address of the frame buffer in the kernel's address
    /// space: the physical address behind the offset of the physical
    /// mapping.
    pub fn frame_buffer(&self) -> (addr: u64)
        ensures
            addr == phys_to_virt(self.fb_base),
    {
        alias(self.fb_base)
    }

    /// Writes the entry data to the four words at `addr`. Returns whether
    /// the memory has the four words; if it has not, nothing is written.
    pub fn store(&self, mem: &mut PhysMemory, addr: u64) -> (done: bool)
        requires
            old(mem).wf(),
        ensures
            final(mem).wf(),
            done == entry_words_at(old(mem)@, addr),
            final(mem)@ == if done {
                entry_stored(old(mem)@, addr, *self)
            } else {
                old(mem)@
            },
    {
        if addr > u64::MAX - 24 {
            return false;
        }
        if mem.read(addr).is_none() || mem.read(addr + 8).is_none() || mem.read(
            addr + 16,
        ).is_none() || mem.read(addr + 24).is_none() {
            return false;
        }
        let words = self.to_words();
        mem.write(addr, words[0]);
        mem.write(addr + 8, words[1]);
        mem.write(addr + 16, words[2]);
        mem.write(addr + 24, words[3]);
        true
    }

    /// Reads the entry data from the four words at `addr`, if the memory
    /// has them.
    pub fn load(mem: &PhysMemory, addr: u64) -> (data: Option<Self>)
        requires
            mem.wf(),
        ensures
            entry_words_at(mem@, addr) ==> data == Some(
                entry_data_of(
                    seq![
                        mem@[addr],
                        mem@[(addr + 8) as u64],
                        mem@[(addr + 16) as u64],
                        mem@[(addr + 24) as u64],
                    ],
                ),
            ),
            !entry_words_at(mem@, addr) ==> data is None,
    {
        if addr > u64::MAX - 24 {
            return None;
        }
        let first = mem.read(addr);
        let second = mem.read(addr + 8);
        let third = mem.read(addr + 16);
        let fourth = mem.read(addr + 24);
        match (first, second, third, fourth) {
            (Some(a), Some(b), Some(c), Some(d)) => {
                let words = [a, b, c, d];
                assert(words@ =~= seq![a, b, c, d]);
                Some(Self::from_words(words))
            },
            _ => None,
        }
    }
}

/// Whether `mem` has the four words from `addr` on.
pub open spec fn entry_words_at(mem: Map<u64, u64>, addr: u64) -> bool {
    &&& addr + 24 <= u64::MAX
    &&& mem.dom().contains(addr)
    &&& mem.dom().contains((addr + 8) as u64)
    &&& mem.dom().contains((addr + 16) as u64)
    &&& mem.dom().contains((addr + 24) as u64)
}

/// `mem` with `data` in the four words from `addr` on.
pub open spec fn entry_stored(mem: Map<u64, u64>, addr: u64, data: EntryData) -> Map<u64, u64> {
    mem.insert(addr, entry_words(data)[0]).insert((addr + 8) as u64, entry_words(data)[1]).insert(
        (addr + 16) as u64,
        entry_words(data)[2],
    ).insert((addr + 24) as u64, entry_words(data)[3])
}

/// Why an image holds no kernel that the loader can load.
#[derive(Clone, Copy, Debug, PartialEq, Eq, Structural)]
pub enum ImageError {
    /// The image ends before a header that is read.
    Truncated,
    /// Unexpected program header table entry size.
    ProgramHeaderSize,
    /// Could not find kernel: no segment is to be loaded, or the first
    /// that is holds no bytes.
    NoKernel,
    /// Kernel cannot be larger than 2 MiB.
    KernelTooLarge,
}

/// What the loader needs to know of the kernel in an image.
#[derive(Clone, Copy, Debug, PartialEq, Eq, Structural)]
pub struct KernelImage {
    /// The number of bytes of the kernel in the image.
    pub size: u64,
    /// Where the kernel expects to be located.
    pub virt_addr: u64,
    /// The virtual address of the kernel's entry point.
    pub entry: u64,
    /// Where the bytes of the kernel start in the image.
    pub offset: u64,
}

/// The program header at place `index` of the program header table of
/// `image`, if the image holds it.
pub open spec fn program_header(image: Seq<u8>, index: int) -> Option<ProgramHeader> {
    match place(image.len(), le_u64(image, 32), 56 * index, 56) {
        Some(at) => Some(program_header_at(image, at)),
        None => None,
    }
}

/// The first program header from place `index` on whose segment is to be
/// loaded. The search fails at a header that the image does not hold.
pub open spec fn loadable_from(image: Seq<u8>, index: int) -> Result<ProgramHeader, ImageError>
    decreases le_u16(image, 56) - index,
{
    if index >= le_u16(image, 56) {
        Err(ImageError::NoKernel)
    } else {
        match program_header(image, index) {
            None => Err(ImageError::Truncated),
            Some(header) => if header.p_type == PT_LOAD {
                Ok(header)
            } else {
                loadable_from(image, index + 1)
            },
        }
    }
}

/// The kernel in `image`: the first segment that is to be loaded, which
/// holds at least one byte and at most 2 MiB.
pub open spec fn kernel_of(image: Seq<u8>) -> Result<KernelImage, ImageError> {
    if image.len() < 64 {
        Err(ImageError::Truncated)
    } else if le_u16(image, 54) != 0x38 {
        Err(ImageError::ProgramHeaderSize)
    } else {
        match loadable_from(image, 0) {
            Err(error) => Err(error),
            Ok(header) => if header.p_filesz == 0 {
                Err(ImageError::NoKernel)
            } else if header.p_filesz > KERNEL_MAX_SIZE {
                Err(ImageError::KernelTooLarge)
            } else {
                Ok(
                    KernelImage {
                        size: header.p_filesz,
                        virt_addr: header.p_vaddr,
                        entry: le_u64(image, 24),
                        offset: header.p_offset,
                    },
                )
            },
        }
    }
}

/// Finds the kernel in an image: the first loadable program header, which
/// we assume to be our kernel.
pub fn find_kernel(image: &[u8]) -> (result: Result<KernelImage, ImageError>)
    ensures
        result == kernel_of(image@),
{
    let file_header = match FileHeader::parse(image) {
        Some(header) => header,
        None => {
            return Err(ImageError::Truncated);
        },
    };
    if file_header.e_phentsize != 0x38 {
        return Err(ImageError::ProgramHeaderSize);
    }
    let mut i: u16 = 0;
    while i < file_header.e_phnum
        invariant
            i <= file_header.e_phnum,
            image@.len() >= 64,
            crate::elf::is_file_header(image@, file_header),
            file_header.e_phentsize == 0x38,
            loadable_from(image@, 0) == loadable_from(image@, i as int),
        decreases file_header.e_phnum - i,
    {
        let ph = match entry_place(
            image.len(),
            file_header.e_phoff,
            i as u64,
            PROGRAM_HEADER_SIZE,
        ) {
            Some(at) => ProgramHeader::parse(image, at),
            None => {
                return Err(ImageError::Truncated);
            },
        };
        if ph.p_type == PT_LOAD {
            if ph.p_filesz == 0 {
                return Err(ImageError::NoKernel);
            }
            if ph.p_filesz > KERNEL_MAX_SIZE {
                return Err(ImageError::KernelTooLarge);
            }
            return Ok(
                KernelImage {
                    size: ph.p_filesz,
                    virt_addr: ph.p_vaddr,
                    entry: file_header.e_entry,
                    offset: ph.p_offset,
                },
            );
        }
        i += 1;
    }
    Err(ImageError::NoKernel)
}

/// The number of pages for a memory map of `size` bytes whose descriptors
/// take `descriptor_size` bytes, with space for two extra descriptors
/// since the memory map may need to be expanded while allocating space
/// for itself; nothing if the number does not fit.
pub open spec fn map_pages_of(size: u64, descriptor_size: u64) -> Option<u64> {
    if size + 2 * descriptor_size + 4095 <= u64::MAX {
        Some(((size + 2 * descriptor_size + 4095) / 4096) as u64)
    } else {
        None
    }
}

/// Calculates how many pages are needed to fit the memory map.
pub fn memory_map_pages(size: u64, descriptor_size: u64) -> (pages: Option<u64>)
    ensures
        pages == map_pages_of(size, descriptor_size),
{
    if descriptor_size > (u64::MAX - 4095) / 2 {
        return None;
    }
    if size > u64::MAX - 4095 - 2 * descriptor_size {
        return None;
    }
    Some((size + 2 * descriptor_size + 4095) / 4096)
}

/// The value of the control register with the bits for page-size and
/// physical-address extensions set.
pub fn with_paging_extensions(cr4: u64) -> (value: u64)
    ensures
        value == cr4 | 0x30,
{
    cr4 | 0x30
}

} // verus!
