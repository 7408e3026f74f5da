use rk_boot::boot_sequence::{
    step, Handoff, LoaderAction, LoaderError, LoaderEvent, LoaderState, Stage,
};
use rk_boot::boot_tables::{build_page_tables, PAGING_BASE};
use rk_boot::elf::{find_symbol, ElfError};
use rk_boot::loader::{
    find_kernel, memory_map_pages, with_paging_extensions, EntryData, ImageError, KernelImage,
    ENTRY_DATA_SYMBOL, GREETING, IMAGE_PAGES, KERNEL_FILE_NAME, KERNEL_MAX_SIZE,
};
use rk_boot::mapper::Mapper;
use rk_boot::phys_mem::PhysMemory;
use rk_boot::uefi::{EfiStatus, EFI_BUFFER_TOO_SMALL, EFI_NOT_FOUND, EFI_OUT_OF_RESOURCES};

const OK: EfiStatus = EfiStatus(0);

fn kernel_put(image: &mut Vec<u8>, at: usize, bytes: &[u8]) {
    if image.len() < at + bytes.len() {
        image.resize(at + bytes.len(), 0);
    }
    image[at..at + bytes.len()].copy_from_slice(bytes);
}

fn kernel_program_header(at: usize, kind: u32, offset: u64, vaddr: u64, size: u64) -> Vec<u8> {
    let mut header = vec![0u8; 56];
    kernel_put(&mut header, 0, &kind.to_le_bytes());
    kernel_put(&mut header, 8, &offset.to_le_bytes());
    kernel_put(&mut header, 16, &vaddr.to_le_bytes());
    kernel_put(&mut header, 32, &size.to_le_bytes());
    kernel_put(&mut header, 40, &size.to_le_bytes());
    let _ = at;
    header
}

/// A kernel image with a note segment, a loadable segment of `size` bytes
/// at offset 0x1000, and the symbol "entry_data".
fn kernel_image(size: u64) -> Vec<u8> {
    let mut image = vec![0u8; 64];
    kernel_put(&mut image, 0, &[0x7f, b'E', b'L', b'F', 2, 1, 1, 0]);
    kernel_put(&mut image, 24, &0xffff_ff80_0000_0040u64.to_le_bytes());
    kernel_put(&mut image, 32, &64u64.to_le_bytes());
    kernel_put(&mut image, 40, &0x300u64.to_le_bytes());
    kernel_put(&mut image, 54, &56u16.to_le_bytes());
    kernel_put(&mut image, 56, &2u16.to_le_bytes());
    kernel_put(&mut image, 58, &64u16.to_le_bytes());
    kernel_put(&mut image, 60, &3u16.to_le_bytes());
    kernel_put(&mut image, 62, &2u16.to_le_bytes());
    let note = kernel_program_header(64, 4, 0x200, 0, 16);
    kernel_put(&mut image, 64, &note);
    let load = kernel_program_header(120, 1, 0x1000, 0xffff_ff80_0000_0000, size);
    kernel_put(&mut image, 120, &load);
    // Names at 0x200, one symbol at 0x240, section headers at 0x300.
    kernel_put(&mut image, 0x200, b"\0.symtab\0.strtab\0entry_data\0");
    kernel_put(&mut image, 0x240, &17u32.to_le_bytes());
    kernel_put(&mut image, 0x248, &0xffff_ff80_0010_0000u64.to_le_bytes());
    for (i, (name, offset, length, entsize)) in
        [(1u32, 0x240u64, 24u64, 24u64), (9, 0x200, 28, 0), (9, 0x200, 28, 0)].iter().enumerate()
    {
        let at = 0x300 + 64 * i;
        kernel_put(&mut image, at, &name.to_le_bytes());
        kernel_put(&mut image, at + 24, &offset.to_le_bytes());
        kernel_put(&mut image, at + 32, &length.to_le_bytes());
        kernel_put(&mut image, at + 56, &entsize.to_le_bytes());
    }
    kernel_put(&mut image, 0x1000, &vec![0x90u8; 4096]);
    image
}

fn graphics() -> LoaderEvent {
    LoaderEvent::Graphics {
        status: OK,
        fb_base: 0x8000_0000,
        horizontal_resolution: 1024,
        vertical_resolution: 768,
        pixels_per_scan_line: 1024,
    }
}

/// Runs the loader through `events` and returns the state and the last
/// action.
fn drive(events: &[LoaderEvent]) -> (LoaderState, LoaderAction) {
    let mut state = LoaderState::new();
    let mut action = LoaderAction::Abort(LoaderError::UnexpectedEvent);
    for event in events {
        let (next, asked) = step(state, *event);
        state = next;
        action = asked;
    }
    (state, action)
}

#[test]
fn loader_constants() {
    assert_eq!(KERNEL_FILE_NAME, "RK_KERNEL.ELF");
    assert_eq!(ENTRY_DATA_SYMBOL, "entry_data");
    assert_eq!(KERNEL_MAX_SIZE, 2 * 1024 * 1024);
    assert_eq!(IMAGE_PAGES * 4096, KERNEL_MAX_SIZE);
}

#[test]
fn entry_data_layout() {
    let data = EntryData::new(0x8000_0000, 1024, 768, 1280);
    assert_eq!(data.greeting, 0x1f427);
    assert_eq!(GREETING, 0x1f427);
    let words = data.to_words();
    assert_eq!(words, [0x1f427, 0x8000_0000, (768 << 32) | 1024, 1280]);
    // Offset 0: greeting; 8: base; 16 and 20: resolution; 24: scan line.
    let mut bytes = Vec::new();
    for word in words {
        bytes.extend_from_slice(&word.to_le_bytes());
    }
    assert_eq!(&bytes[0..4], &0x1f427u32.to_le_bytes());
    assert_eq!(&bytes[8..16], &0x8000_0000u64.to_le_bytes());
    assert_eq!(&bytes[16..20], &1024u32.to_le_bytes());
    assert_eq!(&bytes[20..24], &768u32.to_le_bytes());
    assert_eq!(&bytes[24..28], &1280u32.to_le_bytes());
    assert_eq!(EntryData::from_words(words), data);
    // What lies between the fields is ignored.
    assert_eq!(
        EntryData::from_words([
            0xffff_ffff_0001_f427,
            0x8000_0000,
            (768 << 32) | 1024,
            1 << 32 | 1280
        ]),
        data
    );
}

#[test]
fn entry_data_frame_buffer_lies_behind_the_offset() {
    let data = EntryData::new(0x8000_0000, 1024, 768, 1024);
    assert_eq!(data.frame_buffer(), 0xffff_8000_8000_0000);
    assert_eq!(EntryData::new(0, 1, 1, 1).frame_buffer(), 0xffff_8000_0000_0000);
}

#[test]
fn entry_data_is_stored_and_loaded() {
    let mut mem = PhysMemory::new();
    mem.add_region(0x20_0000, 1).unwrap();
    let data = EntryData::new(0xc000_0000, 800, 600, 832);
    assert!(data.store(&mut mem, 0x20_0000));
    assert_eq!(mem.read(0x20_0000), Some(0x1f427));
    assert_eq!(mem.read(0x20_0008), Some(0xc000_0000));
    assert_eq!(mem.read(0x20_0010), Some((600 << 32) | 800));
    assert_eq!(mem.read(0x20_0018), Some(832));
    assert_eq!(mem.read(0x20_0020), Some(0));
    assert_eq!(EntryData::load(&mem, 0x20_0000), Some(data));
    // Not all four words are there: nothing is written.
    assert!(!data.store(&mut mem, 0x20_0000 + 4096 - 16));
    assert_eq!(mem.read(0x20_0000 + 4096 - 16), Some(0));
    assert_eq!(EntryData::load(&mem, 0x20_0000 + 4096 - 16), None);
    assert!(!data.store(&mut mem, u64::MAX - 7));
    assert_eq!(EntryData::load(&mem, 0x30_0000), None);
}

#[test]
fn kernel_is_the_first_loadable_segment() {
    let image = kernel_image(4096);
    assert_eq!(
        find_kernel(&image),
        Ok(KernelImage {
            size: 4096,
            virt_addr: 0xffff_ff80_0000_0000,
            entry: 0xffff_ff80_0000_0040,
            offset: 0x1000,
        })
    );
}

#[test]
fn kernel_errors() {
    let image = kernel_image(4096);
    assert_eq!(find_kernel(&image[..63]), Err(ImageError::Truncated));
    assert_eq!(find_kernel(&image[..130]), Err(ImageError::Truncated));

    let mut odd = image.clone();
    kernel_put(&mut odd, 54, &0x40u16.to_le_bytes());
    assert_eq!(find_kernel(&odd), Err(ImageError::ProgramHeaderSize));

    let mut none = image.clone();
    kernel_put(&mut none, 120, &2u32.to_le_bytes());
    assert_eq!(find_kernel(&none), Err(ImageError::NoKernel));

    let mut short = image.clone();
    kernel_put(&mut short, 56, &1u16.to_le_bytes());
    assert_eq!(find_kernel(&short), Err(ImageError::NoKernel));

    assert_eq!(find_kernel(&kernel_image(0)), Err(ImageError::NoKernel));
    assert_eq!(find_kernel(&kernel_image(KERNEL_MAX_SIZE + 1)), Err(ImageError::KernelTooLarge));
    assert_eq!(find_kernel(&kernel_image(KERNEL_MAX_SIZE)).unwrap().size, 0x20_0000);
}

#[test]
fn memory_map_pages_leave_room_for_two_descriptors() {
    assert_eq!(memory_map_pages(0, 0), Some(0));
    assert_eq!(memory_map_pages(1, 0), Some(1));
    assert_eq!(memory_map_pages(4096, 0), Some(1));
    assert_eq!(memory_map_pages(4000, 48), Some(1));
    assert_eq!(memory_map_pages(4001, 48), Some(2));
    assert_eq!(memory_map_pages(6000, 48), Some(2));
    assert_eq!(memory_map_pages(u64::MAX, 0), None);
    assert_eq!(memory_map_pages(0, u64::MAX / 2), None);
    assert_eq!(memory_map_pages(u64::MAX - 4095, 0), Some((1 << 52) - 1));
}

#[test]
fn paging_extensions_are_bits_4_and_5() {
    assert_eq!(with_paging_extensions(0), 0x30);
    assert_eq!(with_paging_extensions(0x668), 0x678);
    assert_eq!(with_paging_extensions(1 << 4), 0x30);
    assert_eq!(with_paging_extensions(u64::MAX), u64::MAX);
}

#[test]
fn one_page_kernel_end_to_end() {
    let image = kernel_image(4096);
    let image_addr = 0x400_0000u64;
    let kernel_phys = 0x10_0000u64;
    let entry_page = 0x20_0000u64;

    let mut state = LoaderState::new();
    let mut allocated: Vec<u64> = Vec::new();
    let mut copied: Vec<(u64, u64, u64)> = Vec::new();
    let mut event = LoaderEvent::Begin;
    let handoff: Handoff = loop {
        let (next, action) = step(state, event);
        state = next;
        event = match action {
            LoaderAction::LocateGraphics => graphics(),
            LoaderAction::LocateVolume => LoaderEvent::Found(true),
            LoaderAction::OpenKernel => LoaderEvent::Status(OK),
            LoaderAction::QueryFileSize => LoaderEvent::FileSize(Ok(image.len() as u64)),
            LoaderAction::AllocatePages { pages } => {
                allocated.push(pages);
                LoaderEvent::Pages(Ok(match state.stage {
                    Stage::AllocatingImage => image_addr,
                    Stage::AllocatingKernel => kernel_phys,
                    Stage::AllocatingEntryData => entry_page,
                    _ => 0x50_0000,
                }))
            }
            LoaderAction::ReadImage { addr, size } => {
                assert_eq!((addr, size), (image_addr, KERNEL_MAX_SIZE));
                LoaderEvent::Status(OK)
            }
            LoaderAction::FindKernel { image: addr } => {
                assert_eq!(addr, image_addr);
                LoaderEvent::Kernel(find_kernel(&image))
            }
            LoaderAction::CopySegment { destination, source, length } => {
                copied.push((destination, source, length));
                LoaderEvent::Copied
            }
            LoaderAction::ProbeMemoryMap => LoaderEvent::MemoryMap {
                status: EfiStatus(EFI_BUFFER_TOO_SMALL),
                size: 4800,
                descriptor_size: 48,
                map_key: 0,
            },
            LoaderAction::FetchMemoryMap { addr, size } => {
                assert_eq!((addr, size), (0x50_0000, 4896));
                LoaderEvent::MemoryMap { status: OK, size: 4848, descriptor_size: 48, map_key: 77 }
            }
            LoaderAction::ExitBootServices { map_key } => {
                assert_eq!(map_key, 77);
                LoaderEvent::Status(OK)
            }
            LoaderAction::FindEntryData { image: addr } => {
                assert_eq!(addr, image_addr);
                LoaderEvent::Symbol(find_symbol(&image, ENTRY_DATA_SYMBOL))
            }
            LoaderAction::Jump(handoff) => break handoff,
            LoaderAction::Abort(error) => panic!("the loader gave up: {:?}", error),
        };
    };
    assert!(state.is_done());
    assert_eq!(state.stage, Stage::HandedOff);
    // 512 pages for the image, exactly one for the kernel, one for the
    // entry data, two for the memory map.
    assert_eq!(allocated, vec![IMAGE_PAGES, 1, 1, 2]);
    // Exactly 4096 bytes, from the segment's offset in the image.
    assert_eq!(copied, vec![(kernel_phys, image_addr + 0x1000, 4096)]);
    assert_eq!(
        handoff,
        Handoff {
            entry_data: EntryData::new(0x8000_0000, 1024, 768, 1024),
            entry_data_page: entry_page,
            entry_data_virt: 0xffff_ff80_0010_0000,
            kernel: KernelImage {
                size: 4096,
                virt_addr: 0xffff_ff80_0000_0000,
                entry: 0xffff_ff80_0000_0040,
                offset: 0x1000,
            },
            kernel_phys,
        }
    );

    let mut mem = PhysMemory::new();
    mem.add_region(PAGING_BASE, 10).unwrap();
    mem.add_region(entry_page, 1).unwrap();
    assert!(handoff.entry_data.store(&mut mem, handoff.entry_data_page));
    let used = build_page_tables(
        &mut mem,
        handoff.kernel.virt_addr,
        handoff.kernel_phys,
        handoff.kernel.size,
        handoff.entry_data_virt,
        handoff.entry_data_page,
    );
    assert_eq!(used, Ok(5));
    let mapper = Mapper::new(PAGING_BASE);
    let (entry, level) = mapper.lookup(&mem, 0xffff_ff80_0000_0000).unwrap();
    assert_eq!(level, 1);
    assert_eq!(entry.addr(), kernel_phys);
    assert!(entry.is_present());
    assert!(entry.is_writable());
    assert_eq!(entry.data(), kernel_phys | 0b11);
    assert_eq!(mapper.translate(&mem, handoff.kernel.entry), Ok(kernel_phys + 0x40));
    // The kernel finds the entry data where its symbol says.
    let at = mapper.translate(&mem, handoff.entry_data_virt).unwrap();
    assert_eq!(EntryData::load(&mem, at), Some(handoff.entry_data));
}

#[test]
fn loader_gives_up_on_errors() {
    let not_found = EfiStatus(EFI_NOT_FOUND);
    let full = EfiStatus(EFI_OUT_OF_RESOURCES);
    let begin = LoaderEvent::Begin;
    let kernel = KernelImage { size: 4096, virt_addr: 0xffff_ff80_0000_0000, entry: 0, offset: 0 };
    let probe = LoaderEvent::MemoryMap {
        status: EfiStatus(EFI_BUFFER_TOO_SMALL),
        size: 100,
        descriptor_size: 48,
        map_key: 0,
    };
    let fetched = LoaderEvent::MemoryMap { status: OK, size: 100, descriptor_size: 48, map_key: 9 };
    let happy = [
        begin,
        graphics(),
        LoaderEvent::Found(true),
        LoaderEvent::Status(OK),
        LoaderEvent::FileSize(Ok(0x8000)),
        LoaderEvent::Pages(Ok(0x400_0000)),
        LoaderEvent::Status(OK),
        LoaderEvent::Kernel(Ok(kernel)),
        LoaderEvent::Pages(Ok(0x10_0000)),
        LoaderEvent::Copied,
        LoaderEvent::Pages(Ok(0x20_0000)),
        probe,
        LoaderEvent::Pages(Ok(0x30_0000)),
        fetched,
        LoaderEvent::Status(OK),
    ];
    let failures: Vec<(usize, LoaderEvent, LoaderError)> = vec![
        (
            1,
            LoaderEvent::Graphics {
                status: not_found,
                fb_base: 0,
                horizontal_resolution: 0,
                vertical_resolution: 0,
                pixels_per_scan_line: 0,
            },
            LoaderError::NoGraphics(not_found),
        ),
        (2, LoaderEvent::Found(false), LoaderError::NoVolume),
        (3, LoaderEvent::Status(not_found), LoaderError::OpenFailed(not_found)),
        (4, LoaderEvent::FileSize(Err(not_found)), LoaderError::NoFileSize(not_found)),
        (4, LoaderEvent::FileSize(Ok(0x20_0001)), LoaderError::ImageTooLarge),
        (5, LoaderEvent::Pages(Err(full)), LoaderError::OutOfMemory(full)),
        (6, LoaderEvent::Status(not_found), LoaderError::ReadFailed(not_found)),
        (
            7,
            LoaderEvent::Kernel(Err(ImageError::NoKernel)),
            LoaderError::BadImage(ImageError::NoKernel),
        ),
        (8, LoaderEvent::Pages(Err(full)), LoaderError::OutOfMemory(full)),
        (10, LoaderEvent::Pages(Err(full)), LoaderError::OutOfMemory(full)),
        (
            11,
            LoaderEvent::MemoryMap { status: OK, size: 0, descriptor_size: 0, map_key: 0 },
            LoaderError::UnexpectedStatus(OK),
        ),
        (
            11,
            LoaderEvent::MemoryMap { status: not_found, size: 0, descriptor_size: 0, map_key: 0 },
            LoaderError::UnexpectedStatus(not_found),
        ),
        (
            11,
            LoaderEvent::MemoryMap {
                status: EfiStatus(EFI_BUFFER_TOO_SMALL),
                size: u64::MAX,
                descriptor_size: 48,
                map_key: 0,
            },
            LoaderError::MemoryMapTooLarge,
        ),
        (12, LoaderEvent::Pages(Err(full)), LoaderError::OutOfMemory(full)),
        (
            13,
            LoaderEvent::MemoryMap {
                status: EfiStatus(EFI_BUFFER_TOO_SMALL),
                size: 0,
                descriptor_size: 0,
                map_key: 0,
            },
            LoaderError::NoMemoryMap(EfiStatus(EFI_BUFFER_TOO_SMALL)),
        ),
        (14, LoaderEvent::Status(not_found), LoaderError::ExitFailed(not_found)),
        (
            15,
            LoaderEvent::Symbol(Err(ElfError::NotFound)),
            LoaderError::NoEntryData(ElfError::NotFound),
        ),
        (0, LoaderEvent::Copied, LoaderError::UnexpectedEvent),
        (9, LoaderEvent::Status(OK), LoaderError::UnexpectedEvent),
    ];
    for (done, event, error) in failures {
        let (state, _) = drive(&happy[..done]);
        assert!(!state.is_done());
        let (next, action) = step(state, event);
        assert_eq!(next.stage, Stage::Aborted);
        assert_eq!(action, LoaderAction::Abort(error));
        assert!(next.is_done());
        // Given up is given up.
        let (after, again) = step(next, LoaderEvent::Begin);
        assert_eq!(after.stage, Stage::Aborted);
        assert_eq!(again, LoaderAction::Abort(LoaderError::UnexpectedEvent));
    }
}

#[test]
fn loader_steps_in_order() {
    let kernel =
        KernelImage { size: 8193, virt_addr: 0xffff_ff80_0000_0000, entry: 5, offset: 0x40 };
    let (state, action) = drive(&[LoaderEvent::Begin]);
    assert_eq!((state.stage, action), (Stage::LocatingGraphics, LoaderAction::LocateGraphics));
    let (state, action) = drive(&[LoaderEvent::Begin, graphics()]);
    assert_eq!((state.stage, action), (Stage::LocatingVolume, LoaderAction::LocateVolume));
    assert_eq!(state.progress.entry_data, EntryData::new(0x8000_0000, 1024, 768, 1024));
    let events = [
        LoaderEvent::Begin,
        graphics(),
        LoaderEvent::Found(true),
        LoaderEvent::Status(EfiStatus(1)),
        LoaderEvent::FileSize(Ok(0x20_0000)),
        LoaderEvent::Pages(Ok(0x400_0000)),
        LoaderEvent::Status(OK),
        LoaderEvent::Kernel(Ok(kernel)),
        LoaderEvent::Pages(Ok(0x10_0000)),
    ];
    let (state, action) = drive(&events[..4]);
    // A warning is no error.
    assert_eq!((state.stage, action), (Stage::SizingKernel, LoaderAction::QueryFileSize));
    let (state, action) = drive(&events[..5]);
    assert_eq!(
        (state.stage, action),
        (Stage::AllocatingImage, LoaderAction::AllocatePages { pages: 512 })
    );
    let (state, action) = drive(&events[..8]);
    assert_eq!(
        (state.stage, action),
        (Stage::AllocatingKernel, LoaderAction::AllocatePages { pages: 3 })
    );
    let (state, action) = drive(&events);
    assert_eq!(state.stage, Stage::CopyingKernel);
    assert_eq!(
        action,
        LoaderAction::CopySegment { destination: 0x10_0000, source: 0x400_0040, length: 8193 }
    );
    assert_eq!(state.progress.kernel_phys, 0x10_0000);
}

#[test]
fn loader_gives_up_on_a_segment_behind_the_address_space() {
    let kernel = KernelImage {
        size: 4096,
        virt_addr: 0xffff_ff80_0000_0000,
        entry: 0,
        offset: 0x2000,
    };
    let events = |image: u64| {
        [
            LoaderEvent::Begin,
            graphics(),
            LoaderEvent::Found(true),
            LoaderEvent::Status(OK),
            LoaderEvent::FileSize(Ok(0x8000)),
            LoaderEvent::Pages(Ok(image)),
            LoaderEvent::Status(OK),
            LoaderEvent::Kernel(Ok(kernel)),
            LoaderEvent::Pages(Ok(0x10_0000)),
        ]
    };
    let (state, action) = drive(&events(u64::MAX - 0x1fff));
    assert!(state.is_done());
    assert_eq!(action, LoaderAction::Abort(LoaderError::SegmentOutOfReach));
    // One byte lower the segment starts at the last address.
    let (state, action) = drive(&events(u64::MAX - 0x2000));
    assert!(!state.is_done());
    assert_eq!(
        action,
        LoaderAction::CopySegment { destination: 0x10_0000, source: u64::MAX, length: 4096 }
    );
}
