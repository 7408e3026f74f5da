use rk_boot::elf::{
    find_section_header, find_symbol, memeq, read_u16, read_u32, read_u64, ElfError, FileHeader,
    ProgramHeader, SectionHeader, Symbol,
};

fn elf_put(image: &mut Vec<u8>, at: usize, bytes: &[u8]) {
    if image.len() < at + bytes.len() {
        image.resize(at + bytes.len(), 0);
    }
    image[at..at + bytes.len()].copy_from_slice(bytes);
}

fn elf_section(image: &mut Vec<u8>, at: usize, name: u32, offset: u64, size: u64, entsize: u64) {
    elf_put(image, at, &name.to_le_bytes());
    elf_put(image, at + 24, &offset.to_le_bytes());
    elf_put(image, at + 32, &size.to_le_bytes());
    elf_put(image, at + 56, &entsize.to_le_bytes());
}

fn elf_symbol(image: &mut Vec<u8>, at: usize, name: u32, value: u64) {
    elf_put(image, at, &name.to_le_bytes());
    elf_put(image, at + 4, &[0x11, 0]);
    elf_put(image, at + 6, &1u16.to_le_bytes());
    elf_put(image, at + 8, &value.to_le_bytes());
    elf_put(image, at + 16, &8u64.to_le_bytes());
}

/// An image with the sections "", ".symtab", ".strtab" and ".shstrtab" and
/// the symbols "", "_start" and "entry_data".
fn elf_image() -> Vec<u8> {
    let mut image = vec![0u8; 64];
    elf_put(&mut image, 0, &[0x7f, b'E', b'L', b'F', 2, 1, 1, 0]);
    elf_put(&mut image, 16, &2u16.to_le_bytes());
    elf_put(&mut image, 18, &0x3eu16.to_le_bytes());
    elf_put(&mut image, 20, &1u32.to_le_bytes());
    elf_put(&mut image, 24, &0xffff_ff80_0000_0040u64.to_le_bytes());
    elf_put(&mut image, 32, &64u64.to_le_bytes());
    elf_put(&mut image, 40, &0x200u64.to_le_bytes());
    elf_put(&mut image, 52, &64u16.to_le_bytes());
    elf_put(&mut image, 54, &56u16.to_le_bytes());
    elf_put(&mut image, 56, &0u16.to_le_bytes());
    elf_put(&mut image, 58, &64u16.to_le_bytes());
    elf_put(&mut image, 60, &4u16.to_le_bytes());
    elf_put(&mut image, 62, &3u16.to_le_bytes());
    // Names of the sections at 0x100, names of the symbols at 0x140,
    // symbols at 0x180, section headers at 0x200.
    elf_put(&mut image, 0x100, b"\0.symtab\0.strtab\0.shstrtab\0");
    elf_put(&mut image, 0x140, b"\0_start\0entry_data\0");
    elf_symbol(&mut image, 0x180, 0, 0);
    elf_symbol(&mut image, 0x180 + 24, 1, 0xffff_ff80_0000_0040);
    elf_symbol(&mut image, 0x180 + 48, 8, 0xffff_ff80_0010_0000);
    elf_section(&mut image, 0x200, 0, 0, 0, 0);
    elf_section(&mut image, 0x240, 1, 0x180, 72, 24);
    elf_section(&mut image, 0x280, 9, 0x140, 19, 0);
    elf_section(&mut image, 0x2c0, 17, 0x100, 27, 0);
    image
}

#[test]
fn little_endian_numbers() {
    let bytes = [0x01u8, 0x02, 0x03, 0x04, 0x05, 0x06, 0x07, 0x08, 0x09];
    assert_eq!(read_u16(&bytes, 0), 0x0201);
    assert_eq!(read_u16(&bytes, 7), 0x0908);
    assert_eq!(read_u32(&bytes, 1), 0x0504_0302);
    assert_eq!(read_u64(&bytes, 0), 0x0807_0605_0403_0201);
    assert_eq!(read_u64(&bytes, 1), 0x0908_0706_0504_0302);
    assert_eq!(read_u64(&[0xff; 8], 0), u64::MAX);
}

#[test]
fn file_header_fields() {
    let image = elf_image();
    let header = FileHeader::parse(&image).unwrap();
    assert_eq!(&header.e_ident[..4], &[0x7f, b'E', b'L', b'F']);
    assert_eq!(header.e_type, 2);
    assert_eq!(header.e_machine, 0x3e);
    assert_eq!(header.e_version, 1);
    assert_eq!(header.e_entry, 0xffff_ff80_0000_0040);
    assert_eq!(header.e_phoff, 64);
    assert_eq!(header.e_shoff, 0x200);
    assert_eq!(header.e_ehsize, 64);
    assert_eq!(header.e_phentsize, 56);
    assert_eq!(header.e_phnum, 0);
    assert_eq!(header.e_shentsize, 64);
    assert_eq!(header.e_shnum, 4);
    assert_eq!(header.e_shstrndx, 3);
    assert!(FileHeader::parse(&image[..63]).is_none());
    assert!(FileHeader::parse(&image[..64]).is_some());
}

#[test]
fn program_header_fields() {
    let mut bytes = vec![0u8; 8];
    bytes.extend_from_slice(&1u32.to_le_bytes());
    bytes.extend_from_slice(&5u32.to_le_bytes());
    for value in [0x1000u64, 0xffff_ff80_0000_0000, 0x10_0000, 0x801, 0x2000, 0x1000] {
        bytes.extend_from_slice(&value.to_le_bytes());
    }
    assert_eq!(
        ProgramHeader::parse(&bytes, 8),
        ProgramHeader {
            p_type: 1,
            p_flags: 5,
            p_offset: 0x1000,
            p_vaddr: 0xffff_ff80_0000_0000,
            p_paddr: 0x10_0000,
            p_filesz: 0x801,
            p_memsz: 0x2000,
            p_align: 0x1000,
        }
    );
}

#[test]
fn section_header_and_symbol_fields() {
    let image = elf_image();
    assert_eq!(
        SectionHeader::parse(&image, 0x240),
        SectionHeader {
            sh_name: 1,
            sh_type: 0,
            sh_flags: 0,
            sh_addr: 0,
            sh_offset: 0x180,
            sh_size: 72,
            sh_link: 0,
            sh_info: 0,
            sh_addralign: 0,
            sh_entsize: 24,
        }
    );
    assert_eq!(
        Symbol::parse(&image, 0x180 + 48),
        Symbol {
            st_name: 8,
            st_info: 0x11,
            st_other: 0,
            st_shndx: 1,
            st_value: 0xffff_ff80_0010_0000,
            st_size: 8,
        }
    );
}

#[test]
fn memeq_compares_the_first_bytes() {
    assert!(memeq(b"entry_data", b"entry_data", 10));
    assert!(memeq(b"entry_data", b"entry_point", 6));
    assert!(!memeq(b"entry_data", b"entry_point", 7));
    assert!(!memeq(b"a", b"b", 1));
    assert!(memeq(b"a", b"b", 0));
}

#[test]
fn sections_are_found_by_name() {
    let image = elf_image();
    assert_eq!(find_section_header(&image, ".symtab").unwrap().sh_offset, 0x180);
    assert_eq!(find_section_header(&image, ".strtab").unwrap().sh_offset, 0x140);
    assert_eq!(find_section_header(&image, ".shstrtab").unwrap().sh_offset, 0x100);
    assert_eq!(find_section_header(&image, ".text"), Err(ElfError::NotFound));
    // The start of a name is a match, and the first match counts.
    assert_eq!(find_section_header(&image, ".s").unwrap().sh_offset, 0x180);
    // The empty name is the start of every name.
    assert_eq!(find_section_header(&image, "").unwrap().sh_offset, 0);
}

#[test]
fn symbols_are_found_by_name() {
    let image = elf_image();
    assert_eq!(find_symbol(&image, "entry_data").unwrap().st_value, 0xffff_ff80_0010_0000);
    assert_eq!(find_symbol(&image, "_start").unwrap().st_value, 0xffff_ff80_0000_0040);
    assert_eq!(find_symbol(&image, "main"), Err(ElfError::NotFound));
    // Unnamed symbols are skipped: the empty name finds the first named one.
    assert_eq!(find_symbol(&image, "").unwrap().st_name, 1);
}

#[test]
fn search_errors() {
    let image = elf_image();
    assert_eq!(find_section_header(&image[..40], ".symtab"), Err(ElfError::Truncated));
    assert_eq!(find_symbol(&image[..40], "entry_data"), Err(ElfError::Truncated));
    // The section header table ends inside the image's first section header.
    assert_eq!(find_section_header(&image[..0x230], ".symtab"), Err(ElfError::Truncated));

    let mut odd = image.clone();
    elf_put(&mut odd, 58, &40u16.to_le_bytes());
    assert_eq!(find_section_header(&odd, ".symtab"), Err(ElfError::SectionEntrySize));
    assert_eq!(find_symbol(&odd, "entry_data"), Err(ElfError::SectionEntrySize));

    let mut nameless = image.clone();
    elf_put(&mut nameless, 0x101, b"_");
    assert_eq!(find_symbol(&nameless, "entry_data"), Err(ElfError::NoSymbolTable));

    let mut stringless = image.clone();
    elf_put(&mut stringless, 0x109, b"_");
    assert_eq!(find_symbol(&stringless, "entry_data"), Err(ElfError::NoStringTable));

    let mut wide = image.clone();
    elf_put(&mut wide, 0x240 + 56, &32u64.to_le_bytes());
    assert_eq!(find_symbol(&wide, "entry_data"), Err(ElfError::SymbolEntrySize));

    // A symbol table that claims more symbols than the image holds.
    let mut long = image.clone();
    elf_put(&mut long, 0x240 + 32, &0x1_0000u64.to_le_bytes());
    assert_eq!(find_symbol(&long, "main"), Err(ElfError::Truncated));
    assert_eq!(find_symbol(&long, "entry_data").unwrap().st_name, 8);
}

#[test]
fn entry_place_for_entries_of_any_size() {
    assert_eq!(rk_boot::elf::entry_place(100, 10, 0, 30), Some(10));
    assert_eq!(rk_boot::elf::entry_place(100, 10, 2, 30), Some(70));
    assert_eq!(rk_boot::elf::entry_place(100, 10, 3, 30), None);
    assert_eq!(rk_boot::elf::entry_place(100, 11, 2, 30), None);
    assert_eq!(rk_boot::elf::entry_place(100, 101, 0, 30), None);
    assert_eq!(rk_boot::elf::entry_place(100, 100, 7, 0), Some(100));
    assert_eq!(rk_boot::elf::entry_place(100, 0, u64::MAX, 1), None);
    assert_eq!(rk_boot::elf::entry_place(100, 0, 99, 1), Some(99));
    assert_eq!(rk_boot::elf::entry_place(64, 0, 0, 64), Some(0));
    assert_eq!(rk_boot::elf::entry_place(63, 0, 0, 64), None);
}
