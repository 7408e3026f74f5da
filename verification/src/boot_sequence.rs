//! The loader's sequence of steps.
//!
//! Loading is linear: each step asks one thing of the firmware, and what
//! comes back decides between the next step and giving up. The caller
//! performs each action and hands back what came of it as an event. Every
//! failure is final.

use vstd::prelude::*;
use crate::boot_tables::{pages_for, pages_of};
use crate::elf::{ElfError, Symbol};
use crate::loader::{
    map_pages_of, memory_map_pages, EntryData, ImageError, KernelImage, GREETING, IMAGE_PAGES,
    KERNEL_MAX_SIZE,
};
use crate::uefi::{code_is_error, EfiStatus, EFI_BUFFER_TOO_SMALL};

verus! {

/// Where the loader stands: what it has asked for last.
#[derive(Clone, Copy, Debug, PartialEq, Eq, Structural)]
pub enum Stage {
    /// Nothing has been asked for yet.
    Start,
    /// The graphics output and its frame buffer.
    LocatingGraphics,
    /// The root of the volume that the loader was started from.
    LocatingVolume,
    /// The kernel's file, opened.
    OpeningKernel,
    /// The size of the kernel's file.
    SizingKernel,
    /// Pages for the kernel image.
    AllocatingImage,
    /// The kernel image, read into its pages.
    ReadingImage,
    /// The kernel in the image.
    FindingKernel,
    /// Pages for the kernel.
    AllocatingKernel,
    /// The kernel, copied into its pages.
    CopyingKernel,
    /// A page for the entry data.
    AllocatingEntryData,
    /// The size of the memory map.
    ProbingMemoryMap,
    /// Pages for the memory map.
    AllocatingMemoryMap,
    /// The memory map.
    FetchingMemoryMap,
    /// The end of the boot services.
    ExitingBootServices,
    /// The address at which the kernel expects the entry data.
    FindingEntryData,
    /// The loader has handed over to the kernel.
    HandedOff,
    /// The loader has given up.
    Aborted,
}

/// What the loader has gathered so far. A field holds 0 until the step
/// that fills it.
#[derive(Clone, Copy, Debug, PartialEq, Eq, Structural)]
pub struct Progress {
    /// The entry data for the kernel.
    pub entry_data: EntryData,
    /// The physical address of the kernel image.
    pub image: u64,
    /// The kernel in the image.
    pub kernel: KernelImage,
    /// The physical address of the kernel.
    pub kernel_phys: u64,
    /// The physical address of the page for the entry data.
    pub entry_data_page: u64,
    /// The number of bytes set aside for the memory map.
    pub memory_map_size: u64,
}

/// The state of the loader.
#[derive(Clone, Copy, Debug, PartialEq, Eq, Structural)]
pub struct LoaderState {
    pub stage: Stage,
    pub progress: Progress,
}

/// What has come of the action that the loader asked for.
#[derive(Clone, Copy, Debug)]
pub enum LoaderEvent {
    /// The loader is started.
    Begin,
    /// The graphics output was looked for: the status, and the frame
    /// buffer and geometry of the current mode.
    Graphics {
        status: EfiStatus,
        fb_base: u64,
        horizontal_resolution: u32,
        vertical_resolution: u32,
        pixels_per_scan_line: u32,
    },
    /// Something was looked for and found or not.
    Found(bool),
    /// A call has returned this status.
    Status(EfiStatus),
    /// The size of the file, or the status with which it could not be had.
    FileSize(Result<u64, EfiStatus>),
    /// The address of the pages, or the status with which they could not
    /// be had.
    Pages(Result<u64, EfiStatus>),
    /// The kernel that was found in the image, or why none was.
    Kernel(Result<KernelImage, ImageError>),
    /// The bytes have been copied.
    Copied,
    /// The memory map was asked for: the status, the size of the map, the
    /// size of a descriptor, and the key of the map.
    MemoryMap { status: EfiStatus, size: u64, descriptor_size: u64, map_key: u64 },
    /// The symbol that was found in the image, or why none was.
    Symbol(Result<Symbol, ElfError>),
}

/// Why the loader gives up.
#[derive(Clone, Copy, Debug, PartialEq, Eq, Structural)]
pub enum LoaderError {
    /// Unable to locate the graphics output.
    NoGraphics(EfiStatus),
    /// The volume has no root.
    NoVolume,
    /// Could not open the kernel's file.
    OpenFailed(EfiStatus),
    /// Could not get the size of the kernel's file.
    NoFileSize(EfiStatus),
    /// Kernel ELF too big, max 2 MiB.
    ImageTooLarge,
    /// Could not allocate pages.
    OutOfMemory(EfiStatus),
    /// Could not read the kernel's file.
    ReadFailed(EfiStatus),
    /// The image holds no kernel that can be loaded.
    BadImage(ImageError),
    /// The kernel's segment starts behind the end of the address space.
    SegmentOutOfReach,
    /// Unexpected status while getting the size of the memory map.
    UnexpectedStatus(EfiStatus),
    /// The memory map is too large to count its pages.
    MemoryMapTooLarge,
    /// Could not get the memory map.
    NoMemoryMap(EfiStatus),
    /// The firmware did not end its boot services.
    ExitFailed(EfiStatus),
    /// Could not find the symbol for the entry data in the kernel.
    NoEntryData(ElfError),
    /// The event is none that the step waits for.
    UnexpectedEvent,
}

/// What the kernel is handed over with.
#[derive(Clone, Copy, Debug, PartialEq, Eq, Structural)]
pub struct Handoff {
    /// The entry data, to be written to its page.
    pub entry_data: EntryData,
    /// The physical address of the page for the entry data.
    pub entry_data_page: u64,
    /// The virtual address at which the kernel expects the entry data.
    pub entry_data_virt: u64,
    /// The kernel.
    pub kernel: KernelImage,
    /// The physical address of the kernel.
    pub kernel_phys: u64,
}

/// What the loader asks for next.
#[derive(Clone, Copy, Debug, PartialEq, Eq, Structural)]
pub enum LoaderAction {
    /// Locate the graphics output and report its current mode.
    LocateGraphics,
    /// Resolve the device that the loader was started from to the root of
    /// its volume.
    LocateVolume,
    /// Open the kernel's file for reading.
    OpenKernel,
    /// Ask for the size of the kernel's file.
    QueryFileSize,
    /// Allocate this many pages of loader data, anywhere.
    AllocatePages { pages: u64 },
    /// Read up to `size` bytes of the kernel's file to the address.
    ReadImage { addr: u64, size: u64 },
    /// Find the kernel in the image at the address.
    FindKernel { image: u64 },
    /// Copy `length` bytes from `source` to `destination`.
    CopySegment { destination: u64, source: u64, length: u64 },
    /// Ask for the memory map with no space for it, to learn its size.
    ProbeMemoryMap,
    /// Get the memory map into the `size` bytes at the address.
    FetchMemoryMap { addr: u64, size: u64 },
    /// Notify the firmware that we're taking over.
    ExitBootServices { map_key: u64 },
    /// Find the symbol of the entry data in the image at the address.
    FindEntryData { image: u64 },
    /// Write the entry data, build the page tables, activate them and
    /// jump to the kernel's entry point. This never returns.
    Jump(Handoff),
    /// Stop with a diagnostic.
    Abort(LoaderError),
}

/// The state in which the loader starts.
pub open spec fn initial_state() -> LoaderState {
    LoaderState {
        stage: Stage::Start,
        progress: Progress {
            entry_data: EntryData {
                greeting: GREETING,
                fb_base: 0,
                fb_horizontal_resolution: 0,
                fb_vertical_resolution: 0,
                fb_pixels_per_scan_line: 0,
            },
            image: 0,
            kernel: KernelImage { size: 0, virt_addr: 0, entry: 0, offset: 0 },
            kernel_phys: 0,
            entry_data_page: 0,
            memory_map_size: 0,
        },
    }
}

/// The place of a stage in the sequence. The two ends, handed off and
/// aborted, come last.
pub open spec fn rank(stage: Stage) -> nat {
    match stage {
        Stage::Start => 0,
        Stage::LocatingGraphics => 1,
        Stage::LocatingVolume => 2,
        Stage::OpeningKernel => 3,
        Stage::SizingKernel => 4,
        Stage::AllocatingImage => 5,
        Stage::ReadingImage => 6,
        Stage::FindingKernel => 7,
        Stage::AllocatingKernel => 8,
        Stage::CopyingKernel => 9,
        Stage::AllocatingEntryData => 10,
        Stage::ProbingMemoryMap => 11,
        Stage::AllocatingMemoryMap => 12,
        Stage::FetchingMemoryMap => 13,
        Stage::ExitingBootServices => 14,
        Stage::FindingEntryData => 15,
        Stage::HandedOff => 16,
        Stage::Aborted => 16,
    }
}

/// The state and the action after giving up for `error`.
pub open spec fn give_up(progress: Progress, error: LoaderError) -> (LoaderState, LoaderAction) {
    (LoaderState { stage: Stage::Aborted, progress }, LoaderAction::Abort(error))
}

/// The state and the action that take the loader on to `stage`.
pub open spec fn go_on(stage: Stage, progress: Progress, action: LoaderAction) -> (
    LoaderState,
    LoaderAction,
) {
    (LoaderState { stage, progress }, action)
}

/// The step that the loader takes from `state` on `event`: the state that
/// it is in afterwards and what it asks for.
pub open spec fn next_step(state: LoaderState, event: LoaderEvent) -> (LoaderState, LoaderAction) {
    let p = state.progress;
    match (state.stage, event) {
        (Stage::Start, LoaderEvent::Begin) => go_on(
            Stage::LocatingGraphics,
            p,
            LoaderAction::LocateGraphics,
        ),
        (
            Stage::LocatingGraphics,
            LoaderEvent::Graphics {
                status,
                fb_base,
                horizontal_resolution,
                vertical_resolution,
                pixels_per_scan_line,
            },
        ) => if code_is_error(status.0) {
            give_up(p, LoaderError::NoGraphics(status))
        } else {
            go_on(
                Stage::LocatingVolume,
                Progress {
                    entry_data: EntryData {
                        greeting: GREETING,
                        fb_base,
                        fb_horizontal_resolution: horizontal_resolution,
                        fb_vertical_resolution: vertical_resolution,
                        fb_pixels_per_scan_line: pixels_per_scan_line,
                    },
                    ..p
                },
                LoaderAction::LocateVolume,
            )
        },
        (Stage::LocatingVolume, LoaderEvent::Found(found)) => if found {
            go_on(Stage::OpeningKernel, p, LoaderAction::OpenKernel)
        } else {
            give_up(p, LoaderError::NoVolume)
        },
        (Stage::OpeningKernel, LoaderEvent::Status(status)) => if code_is_error(status.0) {
            give_up(p, LoaderError::OpenFailed(status))
        } else {
            go_on(Stage::SizingKernel, p, LoaderAction::QueryFileSize)
        },
        (Stage::SizingKernel, LoaderEvent::FileSize(size)) => match size {
            Err(status) => give_up(p, LoaderError::NoFileSize(status)),
            Ok(bytes) => if bytes > KERNEL_MAX_SIZE {
                give_up(p, LoaderError::ImageTooLarge)
            } else {
                go_on(Stage::AllocatingImage, p, LoaderAction::AllocatePages { pages: IMAGE_PAGES })
            },
        },
        (Stage::AllocatingImage, LoaderEvent::Pages(pages)) => match pages {
            Err(status) => give_up(p, LoaderError::OutOfMemory(status)),
            Ok(addr) => go_on(
                Stage::ReadingImage,
                Progress { image: addr, ..p },
                LoaderAction::ReadImage { addr, size: KERNEL_MAX_SIZE },
            ),
        },
        (Stage::ReadingImage, LoaderEvent::Status(status)) => if code_is_error(status.0) {
            give_up(p, LoaderError::ReadFailed(status))
        } else {
            go_on(Stage::FindingKernel, p, LoaderAction::FindKernel { image: p.image })
        },
        (Stage::FindingKernel, LoaderEvent::Kernel(kernel)) => match kernel {
            Err(error) => give_up(p, LoaderError::BadImage(error)),
            Ok(found) => go_on(
                Stage::AllocatingKernel,
                Progress { kernel: found, ..p },
                LoaderAction::AllocatePages { pages: pages_of(found.size) },
            ),
        },
        (Stage::AllocatingKernel, LoaderEvent::Pages(pages)) => match pages {
            Err(status) => give_up(p, LoaderError::OutOfMemory(status)),
            Ok(addr) => if p.image + p.kernel.offset > u64::MAX {
                give_up(p, LoaderError::SegmentOutOfReach)
            } else {
                go_on(
                    Stage::CopyingKernel,
                    Progress { kernel_phys: addr, ..p },
                    LoaderAction::CopySegment {
                        destination: addr,
                        source: (p.image + p.kernel.offset) as u64,
                        length: p.kernel.size,
                    },
                )
            },
        },
        (Stage::CopyingKernel, LoaderEvent::Copied) => go_on(
            Stage::AllocatingEntryData,
            p,
            LoaderAction::AllocatePages { pages: 1 },
        ),
        (Stage::AllocatingEntryData, LoaderEvent::Pages(pages)) => match pages {
            Err(status) => give_up(p, LoaderError::OutOfMemory(status)),
            Ok(addr) => go_on(
                Stage::ProbingMemoryMap,
                Progress { entry_data_page: addr, ..p },
                LoaderAction::ProbeMemoryMap,
            ),
        },
        (
            Stage::ProbingMemoryMap,
            LoaderEvent::MemoryMap { status, size, descriptor_size, map_key },
        ) => if status.0 != EFI_BUFFER_TOO_SMALL {
            give_up(p, LoaderError::UnexpectedStatus(status))
        } else {
            match map_pages_of(size, descriptor_size) {
                None => give_up(p, LoaderError::MemoryMapTooLarge),
                Some(pages) => go_on(
                    Stage::AllocatingMemoryMap,
                    Progress { memory_map_size: (size + 2 * descriptor_size) as u64, ..p },
                    LoaderAction::AllocatePages { pages },
                ),
            }
        },
        (Stage::AllocatingMemoryMap, LoaderEvent::Pages(pages)) => match pages {
            Err(status) => give_up(p, LoaderError::OutOfMemory(status)),
            Ok(addr) => go_on(
                Stage::FetchingMemoryMap,
                p,
                LoaderAction::FetchMemoryMap { addr, size: p.memory_map_size },
            ),
        },
        (
            Stage::FetchingMemoryMap,
            LoaderEvent::MemoryMap { status, size, descriptor_size, map_key },
        ) => if code_is_error(status.0) {
            give_up(p, LoaderError::NoMemoryMap(status))
        } else {
            go_on(Stage::ExitingBootServices, p, LoaderAction::ExitBootServices { map_key })
        },
        (Stage::ExitingBootServices, LoaderEvent::Status(status)) => if code_is_error(status.0) {
            give_up(p, LoaderError::ExitFailed(status))
        } else {
            go_on(Stage::FindingEntryData, p, LoaderAction::FindEntryData { image: p.image })
        },
        (Stage::FindingEntryData, LoaderEvent::Symbol(symbol)) => match symbol {
            Err(error) => give_up(p, LoaderError::NoEntryData(error)),
            Ok(found) => go_on(
                Stage::HandedOff,
                p,
                LoaderAction::Jump(
                    Handoff {
                        entry_data: p.entry_data,
                        entry_data_page: p.entry_data_page,
                        entry_data_virt: found.st_value,
                        kernel: p.kernel,
                        kernel_phys: p.kernel_phys,
                    },
                ),
            ),
        },
        _ => give_up(p, LoaderError::UnexpectedEvent),
    }
}

impl LoaderState {
    /// The state in which the loader starts.
    pub fn new() -> (state: Self)
        ensures
            state == initial_state(),
    {
        LoaderState {
            stage: Stage::Start,
            progress: Progress {
                entry_data: EntryData::new(0, 0, 0, 0),
                image: 0,
                kernel: KernelImage { size: 0, virt_addr: 0, entry: 0, offset: 0 },
                kernel_phys: 0,
                entry_data_page: 0,
                memory_map_size: 0,
            },
        }
    }

    /// The state after giving up.
    fn aborted(progress: Progress) -> (state: Self)
        ensures
            state == (LoaderState { stage: Stage::Aborted, progress }),
    {
        LoaderState { stage: Stage::Aborted, progress }
    }

    /// Whether the loader has come to an end: it has handed over or given
    /// up.
    pub fn is_done(&self) -> (done: bool)
        ensures
            done == (self.stage == Stage::HandedOff || self.stage == Stage::Aborted),
    {
        self.stage == Stage::HandedOff || self.stage == Stage::Aborted
    }
}

/// Takes the step from `state` on `event`: returns the state that the
/// loader is in afterwards and what it asks for next.
pub fn step(state: LoaderState, event: LoaderEvent) -> (next: (LoaderState, LoaderAction))
    ensures
        next == next_step(state, event),
{
    let p = state.progress;
    match (state.stage, event) {
        (Stage::Start, LoaderEvent::Begin) => (
            LoaderState { stage: Stage::LocatingGraphics, progress: p },
            LoaderAction::LocateGraphics,
        ),
        (
            Stage::LocatingGraphics,
            LoaderEvent::Graphics {
                status,
                fb_base,
                horizontal_resolution,
                vertical_resolution,
                pixels_per_scan_line,
            },
        ) => {
            if status.is_error() {
                return (
                    LoaderState::aborted(p),
                    LoaderAction::Abort(LoaderError::NoGraphics(status)),
                );
            }
            let entry_data = EntryData::new(
                fb_base,
                horizontal_resolution,
                vertical_resolution,
                pixels_per_scan_line,
            );
            (
                LoaderState {
                    stage: Stage::LocatingVolume,
                    progress: Progress { entry_data, ..p },
                },
                LoaderAction::LocateVolume,
            )
        },
        (Stage::LocatingVolume, LoaderEvent::Found(found)) => {
            if !found {
                return (LoaderState::aborted(p), LoaderAction::Abort(LoaderError::NoVolume));
            }
            (LoaderState { stage: Stage::OpeningKernel, progress: p }, LoaderAction::OpenKernel)
        },
        (Stage::OpeningKernel, LoaderEvent::Status(status)) => {
            if status.is_error() {
                return (
                    LoaderState::aborted(p),
                    LoaderAction::Abort(LoaderError::OpenFailed(status)),
                );
            }
            (LoaderState { stage: Stage::SizingKernel, progress: p }, LoaderAction::QueryFileSize)
        },
        (Stage::SizingKernel, LoaderEvent::FileSize(size)) => match size {
            Err(status) => (
                LoaderState::aborted(p),
                LoaderAction::Abort(LoaderError::NoFileSize(status)),
            ),
            Ok(bytes) => {
                // Give up if the kernel ELF is larger than 2 MiB
                if bytes > KERNEL_MAX_SIZE {
                    return (
                        LoaderState::aborted(p),
                        LoaderAction::Abort(LoaderError::ImageTooLarge),
                    );
                }
                // Allocate pages for a 2 MiB contiguous block
                (
                    LoaderState { stage: Stage::AllocatingImage, progress: p },
                    LoaderAction::AllocatePages { pages: IMAGE_PAGES },
                )
            },
        },
        (Stage::AllocatingImage, LoaderEvent::Pages(pages)) => match pages {
            Err(status) => (
                LoaderState::aborted(p),
                LoaderAction::Abort(LoaderError::OutOfMemory(status)),
            ),
            Ok(addr) => (
                LoaderState { stage: Stage::ReadingImage, progress: Progress { image: addr, ..p } },
                LoaderAction::ReadImage { addr, size: KERNEL_MAX_SIZE },
            ),
        },
        (Stage::ReadingImage, LoaderEvent::Status(status)) => {
            if status.is_error() {
                return (
                    LoaderState::aborted(p),
                    LoaderAction::Abort(LoaderError::ReadFailed(status)),
                );
            }
            (
                LoaderState { stage: Stage::FindingKernel, progress: p },
                LoaderAction::FindKernel { image: p.image },
            )
        },
        (Stage::FindingKernel, LoaderEvent::Kernel(kernel)) => match kernel {
            Err(error) => (
                LoaderState::aborted(p),
                LoaderAction::Abort(LoaderError::BadImage(error)),
            ),
            Ok(found) => (
                LoaderState {
                    stage: Stage::AllocatingKernel,
                    progress: Progress { kernel: found, ..p },
                },
                // Allocate memory for the kernel
                LoaderAction::AllocatePages { pages: pages_for(found.size) },
            ),
        },
        (Stage::AllocatingKernel, LoaderEvent::Pages(pages)) => match pages {
            Err(status) => (
                LoaderState::aborted(p),
                LoaderAction::Abort(LoaderError::OutOfMemory(status)),
            ),
            Ok(addr) => match p.image.checked_add(p.kernel.offset) {
                None => (
                    LoaderState::aborted(p),
                    LoaderAction::Abort(LoaderError::SegmentOutOfReach),
                ),
                Some(source) => (
                    LoaderState {
                        stage: Stage::CopyingKernel,
                        progress: Progress { kernel_phys: addr, ..p },
                    },
                    // Copy the loadable kernel section into the allocated space
                    LoaderAction::CopySegment {
                        destination: addr,
                        source,
                        length: p.kernel.size,
                    },
                ),
            },
        },
        (Stage::CopyingKernel, LoaderEvent::Copied) => (
            LoaderState { stage: Stage::AllocatingEntryData, progress: p },
            // Allocate a page for the entry data
            LoaderAction::AllocatePages { pages: 1 },
        ),
        (Stage::AllocatingEntryData, LoaderEvent::Pages(pages)) => match pages {
            Err(status) => (
                LoaderState::aborted(p),
                LoaderAction::Abort(LoaderError::OutOfMemory(status)),
            ),
            Ok(addr) => (
                LoaderState {
                    stage: Stage::ProbingMemoryMap,
                    progress: Progress { entry_data_page: addr, ..p },
                },
                LoaderAction::ProbeMemoryMap,
            ),
        },
        (
            Stage::ProbingMemoryMap,
            LoaderEvent::MemoryMap { status, size, descriptor_size, map_key },
        ) => {
            if status.0 != EFI_BUFFER_TOO_SMALL {
                return (
                    LoaderState::aborted(p),
                    LoaderAction::Abort(LoaderError::UnexpectedStatus(status)),
                );
            }
            match memory_map_pages(size, descriptor_size) {
                None => (
                    LoaderState::aborted(p),
                    LoaderAction::Abort(LoaderError::MemoryMapTooLarge),
                ),
                Some(pages) => (
                    LoaderState {
                        stage: Stage::AllocatingMemoryMap,
                        progress: Progress { memory_map_size: size + 2 * descriptor_size, ..p },
                    },
                    LoaderAction::AllocatePages { pages },
                ),
            }
        },
        (Stage::AllocatingMemoryMap, LoaderEvent::Pages(pages)) => match pages {
            Err(status) => (
                LoaderState::aborted(p),
                LoaderAction::Abort(LoaderError::OutOfMemory(status)),
            ),
            Ok(addr) => (
                LoaderState { stage: Stage::FetchingMemoryMap, progress: p },
                LoaderAction::FetchMemoryMap { addr, size: p.memory_map_size },
            ),
        },
        (
            Stage::FetchingMemoryMap,
            LoaderEvent::MemoryMap { status, size, descriptor_size, map_key },
        ) => {
            if status.is_error() {
                return (
                    LoaderState::aborted(p),
                    LoaderAction::Abort(LoaderError::NoMemoryMap(status)),
                );
            }
            (
                LoaderState { stage: Stage::ExitingBootServices, progress: p },
                LoaderAction::ExitBootServices { map_key },
            )
        },
        (Stage::ExitingBootServices, LoaderEvent::Status(status)) => {
            if status.is_error() {
                return (
                    LoaderState::aborted(p),
                    LoaderAction::Abort(LoaderError::ExitFailed(status)),
                );
            }
            (
                LoaderState { stage: Stage::FindingEntryData, progress: p },
                LoaderAction::FindEntryData { image: p.image },
            )
        },
        (Stage::FindingEntryData, LoaderEvent::Symbol(symbol)) => match symbol {
            Err(error) => (
                LoaderState::aborted(p),
                LoaderAction::Abort(LoaderError::NoEntryData(error)),
            ),
            Ok(found) => (
                LoaderState { stage: Stage::HandedOff, progress: p },
                LoaderAction::Jump(
                    Handoff {
                        entry_data: p.entry_data,
                        entry_data_page: p.entry_data_page,
                        entry_data_virt: found.st_value,
                        kernel: p.kernel,
                        kernel_phys: p.kernel_phys,
                    },
                ),
            ),
        },
        _ => (LoaderState::aborted(p), LoaderAction::Abort(LoaderError::UnexpectedEvent)),
    }
}

/// The sequence is linear: no step leads back. A step leads to the next
/// stage or to an end, and from an end there is no step but to give up.
pub proof fn lemma_steps_forward(state: LoaderState, event: LoaderEvent)
    ensures
        ({
            let (next, action) = next_step(state, event);
            &&& rank(next.stage) > rank(state.stage) || next.stage == Stage::Aborted
            &&& next.stage != Stage::Aborted ==> rank(next.stage) == rank(state.stage) + 1
            &&& next.stage == Stage::Aborted <==> action is Abort
            &&& next.stage == Stage::HandedOff <==> action is Jump
        }),
{
}

/// Every error is fatal. Whatever status the firmware returns that
/// indicates an error, the loader gives up; the one exception is the
/// status that the memory map does not fit in no space, which is what the
/// probe for its size waits for.
pub proof fn lemma_errors_are_fatal(state: LoaderState, event: LoaderEvent)
    requires
        match event {
            LoaderEvent::Graphics { status, .. } => code_is_error(status.0),
            LoaderEvent::Status(status) => code_is_error(status.0),
            LoaderEvent::FileSize(size) => size is Err,
            LoaderEvent::Pages(pages) => pages is Err,
            LoaderEvent::Kernel(kernel) => kernel is Err,
            LoaderEvent::MemoryMap { status, .. } => code_is_error(status.0) && !(state.stage
                == Stage::ProbingMemoryMap && status.0 == EFI_BUFFER_TOO_SMALL),
            LoaderEvent::Symbol(symbol) => symbol is Err,
            LoaderEvent::Found(found) => !found,
            _ => false,
        },
    ensures
        next_step(state, event).0.stage == Stage::Aborted,
        next_step(state, event).1 is Abort,
{
    crate::uefi::lemma_error_codes(EFI_BUFFER_TOO_SMALL);
}

} // verus!
