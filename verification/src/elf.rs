//! 64-bit ELF images: headers, sections and symbols, read from bytes.
//!
//! All numbers in an image are little-endian. Every read is held
//! against the length of the image first.

use vstd::prelude::*;
use vstd::string::StringSliceAdditionalSpecFns;

verus! {

/// The size in bytes of a file header.
pub const FILE_HEADER_SIZE: usize = 64;

/// The size in bytes of an entry of the program header table.
pub const PROGRAM_HEADER_SIZE: usize = 56;

/// The size in bytes of an entry of the section header table.
pub const SECTION_HEADER_SIZE: usize = 64;

/// The size in bytes of an entry of a symbol table.
pub const SYMBOL_SIZE: usize = 24;

/// Why an image could not be read.
#[derive(Clone, Copy, Debug, PartialEq, Eq, Structural)]
pub enum ElfError {
    /// The image ends before a header or an entry that is read.
    Truncated,
    /// The section header table has entries of another size than a section
    /// header.
    SectionEntrySize,
    /// The symbol table has entries of another size than a symbol.
    SymbolEntrySize,
    /// The image has no section `.symtab`.
    NoSymbolTable,
    /// The image has no section `.strtab`.
    NoStringTable,
    /// No section or symbol has the name.
    NotFound,
}

/// The 16-bit number at `at` in `bytes`.
pub open spec fn le_u16(bytes: Seq<u8>, at: int) -> u16 {
    (bytes[at] + 0x100 * bytes[at + 1]) as u16
}

/// The 32-bit number at `at` in `bytes`.
pub open spec fn le_u32(bytes: Seq<u8>, at: int) -> u32 {
    (bytes[at] + 0x100 * bytes[at + 1] + 0x1_0000 * bytes[at + 2] + 0x100_0000 * bytes[at
        + 3]) as u32
}

/// The 64-bit number at `at` in `bytes`.
pub open spec fn le_u64(bytes: Seq<u8>, at: int) -> u64 {
    (le_u32(bytes, at) + 0x1_0000_0000 * le_u32(bytes, at + 4)) as u64
}

/// Reads the 16-bit number at `at`.
pub fn read_u16(bytes: &[u8], at: usize) -> (value: u16)
    requires
        at + 2 <= bytes.len(),
    ensures
        value == le_u16(bytes@, at as int),
{
    bytes[at] as u16 + 0x100 * (bytes[at + 1] as u16)
}

/// Reads the 32-bit number at `at`.
pub fn read_u32(bytes: &[u8], at: usize) -> (value: u32)
    requires
        at + 4 <= bytes.len(),
    ensures
        value == le_u32(bytes@, at as int),
{
    bytes[at] as u32 + 0x100 * (bytes[at + 1] as u32) + 0x1_0000 * (bytes[at + 2] as u32)
        + 0x100_0000 * (bytes[at + 3] as u32)
}

/// Reads the 64-bit number at `at`.
pub fn read_u64(bytes: &[u8], at: usize) -> (value: u64)
    requires
        at + 8 <= bytes.len(),
    ensures
        value == le_u64(bytes@, at as int),
{
    read_u32(bytes, at) as u64 + 0x1_0000_0000 * (read_u32(bytes, at + 4) as u64)
}

/// Where the `size` bytes at `offset` behind `base` start in an image of
/// `len` bytes, if they lie in it.
pub open spec fn place(len: nat, base: u64, offset: int, size: int) -> Option<int> {
    if 0 <= offset && base + offset + size <= len {
        Some(base + offset)
    } else {
        None
    }
}

/// The last entry of `size` bytes that lies in `room` bytes is the one
/// that the division gives.
proof fn lemma_last_entry(room: u64, size: u64, index: u64)
    requires
        0 < size <= room,
    ensures
        index <= (room - size) / (size as int) <==> size * index + size <= room,
{
    let r = room - size;
    let s = size as int;
    vstd::arithmetic::div_mod::lemma_fundamental_div_mod(r, s);
    vstd::arithmetic::div_mod::lemma_mod_bound(r, s);
    let q = r / s;
    if index <= q {
        assert(s * index <= s * q) by (nonlinear_arith)
            requires
                index <= q,
                s > 0,
        ;
    } else {
        assert(s * index >= s * (q + 1)) by (nonlinear_arith)
            requires
                index >= q + 1,
                s > 0,
        ;
        assert(s * (q + 1) == s * q + s) by (nonlinear_arith);
    }
}

/// Where entry `index` of a table at `base`, with entries of `size` bytes,
/// starts in an image of `len` bytes, if the entry lies in it.
pub fn entry_place(len: usize, base: u64, index: u64, size: usize) -> (at: Option<usize>)
    ensures
        at matches Some(start) ==> place(len as nat, base, size * index, size as int) == Some(
            start as int,
        ),
        at is None ==> place(len as nat, base, size * index, size as int) is None,
{
    if base > len as u64 {
        return None;
    }
    let room = len as u64 - base;
    let size = size as u64;
    if size == 0 {
        assert(size * index == 0) by (nonlinear_arith)
            requires
                size == 0,
        ;
        return Some(base as usize);
    }
    if room < size {
        assert(size * index >= 0) by (nonlinear_arith);
        return None;
    }
    proof {
        lemma_last_entry(room, size, index);
    }
    if index > (room - size) / size {
        return None;
    }
    Some((base + size * index) as usize)
}

/// A 64-bit ELF file header.
#[derive(Debug, Copy, Clone)]
pub struct FileHeader {
    pub e_ident: [u8; 16],
    pub e_type: u16,
    pub e_machine: u16,
    pub e_version: u32,
    pub e_entry: u64,
    /// Offset to the start of the program header table (usually follows
    /// immediately after the file header).
    pub e_phoff: u64,
    /// Offset to the start of the section header table.
    pub e_shoff: u64,
    pub e_flags: u32,
    /// The size of the header, normally 64 bytes.
    pub e_ehsize: u16,
    /// The size of a program header table entry.
    pub e_phentsize: u16,
    /// The number of entries in the program header table.
    pub e_phnum: u16,
    /// The size of a section header table entry.
    pub e_shentsize: u16,
    /// The number of entries in the section header table.
    pub e_shnum: u16,
    /// The index of the section header table entry that contains the section
    /// names.
    pub e_shstrndx: u16,
}

/// Whether `header` is the file header that `image` starts with.
pub open spec fn is_file_header(image: Seq<u8>, header: FileHeader) -> bool {
    &&& header.e_ident@ == image.subrange(0, 16)
    &&& header.e_type == le_u16(image, 16)
    &&& header.e_machine == le_u16(image, 18)
    &&& header.e_version == le_u32(image, 20)
    &&& header.e_entry == le_u64(image, 24)
    &&& header.e_phoff == le_u64(image, 32)
    &&& header.e_shoff == le_u64(image, 40)
    &&& header.e_flags == le_u32(image, 48)
    &&& header.e_ehsize == le_u16(image, 52)
    &&& header.e_phentsize == le_u16(image, 54)
    &&& header.e_phnum == le_u16(image, 56)
    &&& header.e_shentsize == le_u16(image, 58)
    &&& header.e_shnum == le_u16(image, 60)
    &&& header.e_shstrndx == le_u16(image, 62)
}

impl FileHeader {
    /// Reads the file header that `image` starts with, if the image is
    /// long enough to hold one.
    pub fn parse(image: &[u8]) -> (header: Option<FileHeader>)
        ensures
            image@.len() < 64 ==> header is None,
            image@.len() >= 64 ==> header is Some && is_file_header(image@, header->0),
    {
        if image.len() < FILE_HEADER_SIZE {
            return None;
        }
        let e_ident: [u8; 16] = [
            image[0],
            image[1],
            image[2],
            image[3],
            image[4],
            image[5],
            image[6],
            image[7],
            image[8],
            image[9],
            image[10],
            image[11],
            image[12],
            image[13],
            image[14],
            image[15],
        ];
        assert(e_ident@ =~= image@.subrange(0, 16));
        Some(
            FileHeader {
                e_ident,
                e_type: read_u16(image, 16),
                e_machine: read_u16(image, 18),
                e_version: read_u32(image, 20),
                e_entry: read_u64(image, 24),
                e_phoff: read_u64(image, 32),
                e_shoff: read_u64(image, 40),
                e_flags: read_u32(image, 48),
                e_ehsize: read_u16(image, 52),
                e_phentsize: read_u16(image, 54),
                e_phnum: read_u16(image, 56),
                e_shentsize: read_u16(image, 58),
                e_shnum: read_u16(image, 60),
                e_shstrndx: read_u16(image, 62),
            },
        )
    }
}

/// A 64-bit ELF program header.
#[derive(Debug, Copy, Clone, PartialEq, Eq, Structural)]
pub struct ProgramHeader {
    pub p_type: u32,
    pub p_flags: u32,
    pub p_offset: u64,
    /// Virtual address of the segment in memory.
    pub p_vaddr: u64,
    pub p_paddr: u64,
    pub p_filesz: u64,
    pub p_memsz: u64,
    pub p_align: u64,
}

/// The program header in the 56 bytes at `at` in `image`.
pub open spec fn program_header_at(image: Seq<u8>, at: int) -> ProgramHeader {
    ProgramHeader {
        p_type: le_u32(image, at),
        p_flags: le_u32(image, at + 4),
        p_offset: le_u64(image, at + 8),
        p_vaddr: le_u64(image, at + 16),
        p_paddr: le_u64(image, at + 24),
        p_filesz: le_u64(image, at + 32),
        p_memsz: le_u64(image, at + 40),
        p_align: le_u64(image, at + 48),
    }
}

impl ProgramHeader {
    /// Reads the program header at `at`.
    pub fn parse(image: &[u8], at: usize) -> (header: ProgramHeader)
        requires
            at + 56 <= image.len(),
        ensures
            header == program_header_at(image@, at as int),
    {
        ProgramHeader {
            p_type: read_u32(image, at),
            p_flags: read_u32(image, at + 4),
            p_offset: read_u64(image, at + 8),
            p_vaddr: read_u64(image, at + 16),
            p_paddr: read_u64(image, at + 24),
            p_filesz: read_u64(image, at + 32),
            p_memsz: read_u64(image, at + 40),
            p_align: read_u64(image, at + 48),
        }
    }
}

/// The types of program headers.
#[derive(Debug, Copy, Clone)]
pub struct ProgramType(pub u32);

/// The type of a program header whose segment is to be loaded.
pub const PT_LOAD: u32 = 0x0000_0001;

/// A 64-bit ELF section header.
#[derive(Debug, Copy, Clone, PartialEq, Eq, Structural)]
pub struct SectionHeader {
    /// The offset into the symbol header string table for the name of this
    /// section.
    pub sh_name: u32,
    pub sh_type: u32,
    pub sh_flags: u64,
    pub sh_addr: u64,
    /// Offset of the section from the beginning of the file, may be zero.
    pub sh_offset: u64,
    pub sh_size: u64,
    pub sh_link: u32,
    pub sh_info: u32,
    pub sh_addralign: u64,
    /// For sections that contain fixed size entry, the size of each entry in
    /// bytes, otherwise zero.
    pub sh_entsize: u64,
}

/// The section header in the 64 bytes at `at` in `image`.
pub open spec fn section_header_at(image: Seq<u8>, at: int) -> SectionHeader {
    SectionHeader {
        sh_name: le_u32(image, at),
        sh_type: le_u32(image, at + 4),
        sh_flags: le_u64(image, at + 8),
        sh_addr: le_u64(image, at + 16),
        sh_offset: le_u64(image, at + 24),
        sh_size: le_u64(image, at + 32),
        sh_link: le_u32(image, at + 40),
        sh_info: le_u32(image, at + 44),
        sh_addralign: le_u64(image, at + 48),
        sh_entsize: le_u64(image, at + 56),
    }
}

impl SectionHeader {
    /// Reads the section header at `at`.
    pub fn parse(image: &[u8], at: usize) -> (header: SectionHeader)
        requires
            at + 64 <= image.len(),
        ensures
            header == section_header_at(image@, at as int),
    {
        SectionHeader {
            sh_name: read_u32(image, at),
            sh_type: read_u32(image, at + 4),
            sh_flags: read_u64(image, at + 8),
            sh_addr: read_u64(image, at + 16),
            sh_offset: read_u64(image, at + 24),
            sh_size: read_u64(image, at + 32),
            sh_link: read_u32(image, at + 40),
            sh_info: read_u32(image, at + 44),
            sh_addralign: read_u64(image, at + 48),
            sh_entsize: read_u64(image, at + 56),
        }
    }
}

/// A 64-bit ELF symbol.
#[derive(Debug, Copy, Clone, PartialEq, Eq, Structural)]
pub struct Symbol {
    /// The offset of the symbol's name in the string table. A value of zero
    /// indicates that the symbol is unnamed.
    pub st_name: u32,
    pub st_info: u8,
    pub st_other: u8,
    /// The index of the related section in the section header table.
    pub st_shndx: u16,
    /// The value of the associated symbol.
    pub st_value: u64,
    /// The size of the associated symbol if applicable. Zero if the symbol has
    /// no size or an unknown size.
    pub st_size: u64,
}

/// The symbol in the 24 bytes at `at` in `image`.
pub open spec fn symbol_at(image: Seq<u8>, at: int) -> Symbol {
    Symbol {
        st_name: le_u32(image, at),
        st_info: image[at + 4],
        st_other: image[at + 5],
        st_shndx: le_u16(image, at + 6),
        st_value: le_u64(image, at + 8),
        st_size: le_u64(image, at + 16),
    }
}

impl Symbol {
    /// Reads the symbol at `at`.
    pub fn parse(image: &[u8], at: usize) -> (symbol: Symbol)
        requires
            at + 24 <= image.len(),
        ensures
            symbol == symbol_at(image@, at as int),
    {
        Symbol {
            st_name: read_u32(image, at),
            st_info: image[at + 4],
            st_other: image[at + 5],
            st_shndx: read_u16(image, at + 6),
            st_value: read_u64(image, at + 8),
            st_size: read_u64(image, at + 16),
        }
    }
}

/// Checks if two blocks of memory are equal: whether the first `n` bytes
/// of `s1` are those of `s2`.
pub fn memeq(s1: &[u8], s2: &[u8], n: usize) -> (equal: bool)
    requires
        n <= s1.len(),
        n <= s2.len(),
    ensures
        equal == (s1@.subrange(0, n as int) == s2@.subrange(0, n as int)),
{
    // Check each byte for equality, return early if they differ
    let mut i: usize = 0;
    while i < n
        invariant
            i <= n,
            n <= s1@.len(),
            n <= s2@.len(),
            s1@.subrange(0, i as int) == s2@.subrange(0, i as int),
        decreases n - i,
    {
        if s1[i] != s2[i] {
            assert(s1@.subrange(0, n as int)[i as int] != s2@.subrange(0, n as int)[i as int]);
            return false;
        }
        assert(s1@.subrange(0, i + 1) =~= s1@.subrange(0, i as int).push(s1@[i as int]));
        assert(s2@.subrange(0, i + 1) =~= s2@.subrange(0, i as int).push(s2@[i as int]));
        i += 1;
    }
    true
}

/// Whether the bytes of `image` from `at` on start with `name`. Nothing
/// ends the name in the image: a longer name that starts with `name` is a
/// match too.
pub open spec fn name_at(image: Seq<u8>, at: int, name: Seq<u8>) -> bool {
    at + name.len() <= image.len() && image.subrange(at, at + name.len()) == name
}

/// Whether the bytes of `image` at `offset` behind `base` start with
/// `name`.
fn has_name(image: &[u8], base: u64, offset: u32, name: &[u8]) -> (found: bool)
    ensures
        found == name_at(image@, base + offset, name@),
{
    let len = image.len() as u64;
    let wanted = name.len() as u64;
    if base > len || offset as u64 > len - base || wanted > len - base - offset as u64 {
        return false;
    }
    let at = (base + offset as u64) as usize;
    let mut i: usize = 0;
    while i < name.len()
        invariant
            i <= name.len(),
            at + name.len() <= image.len(),
            at == base + offset,
            image@.subrange(at as int, at + i) == name@.subrange(0, i as int),
        decreases name.len() - i,
    {
        if image[at + i] != name[i] {
            assert(image@.subrange(at as int, at + name@.len())[i as int] != name@[i as int]);
            return false;
        }
        assert(image@.subrange(at as int, at + i + 1) =~= image@.subrange(at as int, at + i).push(
            image@[at + i],
        ));
        assert(name@.subrange(0, i + 1) =~= name@.subrange(0, i as int).push(name@[i as int]));
        i += 1;
    }
    assert(name@.subrange(0, name@.len() as int) =~= name@);
    true
}

/// The section header at place `index` of the section header table of
/// `image`, if the image holds it.
pub open spec fn section(image: Seq<u8>, index: int) -> Option<SectionHeader> {
    match place(image.len(), le_u64(image, 40), 64 * index, 64) {
        Some(at) => Some(section_header_at(image, at)),
        None => None,
    }
}

/// The first section from place `index` on whose name, in the table of
/// names at `names`, starts with `name`. The search fails at a section
/// header that the image does not hold.
pub open spec fn section_from(image: Seq<u8>, names: u64, name: Seq<u8>, index: int) -> Result<
    SectionHeader,
    ElfError,
>
    decreases le_u16(image, 60) - index,
{
    if index >= le_u16(image, 60) {
        Err(ElfError::NotFound)
    } else {
        match section(image, index) {
            None => Err(ElfError::Truncated),
            Some(header) => if name_at(image, names + header.sh_name, name) {
                Ok(header)
            } else {
                section_from(image, names, name, index + 1)
            },
        }
    }
}

/// The section header of the first section of `image`, in the order of the
/// section header table, whose name starts with `name`.
pub open spec fn section_named(image: Seq<u8>, name: Seq<u8>) -> Result<SectionHeader, ElfError> {
    if image.len() < 64 {
        Err(ElfError::Truncated)
    } else if le_u16(image, 58) != 64 {
        Err(ElfError::SectionEntrySize)
    } else {
        match section(image, le_u16(image, 62) as int) {
            None => Err(ElfError::Truncated),
            Some(names) => section_from(image, names.sh_offset, name, 0),
        }
    }
}

/// Tries to find the section header for the section with the given name.
///
/// Fails with `NotFound` if no section with the given name can be found,
/// with `SectionEntrySize` if the entries of the section header table are
/// not the size of one section header, and with `Truncated` if a header
/// that the search reads lies outside the image.
pub fn find_section_header(image: &[u8], name: &str) -> (result: Result<SectionHeader, ElfError>)
    ensures
        result == section_named(image@, name.spec_bytes()),
{
    let file_header = match FileHeader::parse(image) {
        Some(header) => header,
        None => {
            return Err(ElfError::Truncated);
        },
    };
    // Make sure section header table entries are the size of one section
    // header
    if file_header.e_shentsize != 64 {
        return Err(ElfError::SectionEntrySize);
    }
    let names = match entry_place(
        image.len(),
        file_header.e_shoff,
        file_header.e_shstrndx as u64,
        SECTION_HEADER_SIZE,
    ) {
        Some(at) => SectionHeader::parse(image, at),
        None => {
            return Err(ElfError::Truncated);
        },
    };
    let wanted = name.as_bytes();

    // Check for each section if it the name matches
    let mut i: u16 = 0;
    while i < file_header.e_shnum
        invariant
            i <= file_header.e_shnum,
            image@.len() >= 64,
            is_file_header(image@, file_header),
            wanted@ == name.spec_bytes(),
            section_named(image@, name.spec_bytes()) == section_from(
                image@,
                names.sh_offset,
                name.spec_bytes(),
                i as int,
            ),
        decreases file_header.e_shnum - i,
    {
        let section_header = match entry_place(
            image.len(),
            file_header.e_shoff,
            i as u64,
            SECTION_HEADER_SIZE,
        ) {
            Some(at) => SectionHeader::parse(image, at),
            None => {
                return Err(ElfError::Truncated);
            },
        };
        if has_name(image, names.sh_offset, section_header.sh_name, wanted) {
            return Ok(section_header);
        }
        i += 1;
    }
    Err(ElfError::NotFound)
}

/// The name of the section that holds the symbols.
pub open spec fn symtab_name() -> Seq<u8> {
    ".symtab".spec_bytes()
}

/// The name of the section that holds the names of the symbols.
pub open spec fn strtab_name() -> Seq<u8> {
    ".strtab".spec_bytes()
}

/// The symbol at place `index` of the symbol table at `table` in `image`,
/// if the image holds it.
pub open spec fn symbol(image: Seq<u8>, table: u64, index: int) -> Option<Symbol> {
    match place(image.len(), table, 24 * index, 24) {
        Some(at) => Some(symbol_at(image, at)),
        None => None,
    }
}

/// The first named symbol from place `index` on, of the `count` symbols of
/// the table at `table`, whose name, in the table of names at `names`,
/// starts with `name`. The search fails at a symbol that the image does
/// not hold.
pub open spec fn symbol_from(
    image: Seq<u8>,
    table: u64,
    count: u64,
    names: u64,
    name: Seq<u8>,
    index: int,
) -> Result<Symbol, ElfError>
    decreases count - index,
{
    if index >= count {
        Err(ElfError::NotFound)
    } else {
        match symbol(image, table, index) {
            None => Err(ElfError::Truncated),
            Some(found) => if found.st_name != 0 && name_at(image, names + found.st_name, name) {
                Ok(found)
            } else {
                symbol_from(image, table, count, names, name, index + 1)
            },
        }
    }
}

/// The first named symbol of `image`, in the order of the symbol table,
/// whose name starts with `name`.
pub open spec fn symbol_named(image: Seq<u8>, name: Seq<u8>) -> Result<Symbol, ElfError> {
    match section_named(image, symtab_name()) {
        Err(ElfError::NotFound) => Err(ElfError::NoSymbolTable),
        Err(error) => Err(error),
        Ok(symtab) => match section_named(image, strtab_name()) {
            Err(ElfError::NotFound) => Err(ElfError::NoStringTable),
            Err(error) => Err(error),
            Ok(strtab) => if symtab.sh_entsize != 24 {
                Err(ElfError::SymbolEntrySize)
            } else {
                symbol_from(
                    image,
                    symtab.sh_offset,
                    symtab.sh_size / 24,
                    strtab.sh_offset,
                    name,
                    0,
                )
            },
        },
    }
}

/// Tries to find the symbol with the given name.
///
/// Fails with `NotFound` if no symbol with the given name can be found,
/// with `NoSymbolTable` or `NoStringTable` if the image lacks the section
/// `.symtab` or `.strtab`, with `SymbolEntrySize` if the entries of the
/// symbol table are not the size of one symbol, and with `Truncated` if a
/// header or a symbol that the search reads lies outside the image.
pub fn find_symbol(image: &[u8], name: &str) -> (result: Result<Symbol, ElfError>)
    ensures
        result == symbol_named(image@, name.spec_bytes()),
{
    // Find the symbol and string tables
    let symtab_sh = match find_section_header(image, ".symtab") {
        Ok(header) => header,
        Err(ElfError::NotFound) => {
            return Err(ElfError::NoSymbolTable);
        },
        Err(error) => {
            return Err(error);
        },
    };
    let strtab_sh = match find_section_header(image, ".strtab") {
        Ok(header) => header,
        Err(ElfError::NotFound) => {
            return Err(ElfError::NoStringTable);
        },
        Err(error) => {
            return Err(error);
        },
    };

    // Make sure symbol table entries are the size of one symbol
    if symtab_sh.sh_entsize != 24 {
        return Err(ElfError::SymbolEntrySize);
    }
    // Calculate how many symbols there are
    let symbol_count = symtab_sh.sh_size / 24;
    let wanted = name.as_bytes();

    // Check for each symbol if it the name matches
    let mut i: u64 = 0;
    while i < symbol_count
        invariant
            i <= symbol_count,
            wanted@ == name.spec_bytes(),
            symbol_named(image@, name.spec_bytes()) == symbol_from(
                image@,
                symtab_sh.sh_offset,
                symbol_count,
                strtab_sh.sh_offset,
                name.spec_bytes(),
                i as int,
            ),
        decreases symbol_count - i,
    {
        let symbol = match entry_place(image.len(), symtab_sh.sh_offset, i, SYMBOL_SIZE) {
            Some(at) => Symbol::parse(image, at),
            None => {
                return Err(ElfError::Truncated);
            },
        };
        // Skip the symbol if it's unnamed
        if symbol.st_name != 0 && has_name(image, strtab_sh.sh_offset, symbol.st_name, wanted) {
            return Ok(symbol);
        }
        i += 1;
    }
    Err(ElfError::NotFound)
}

} // verus!
