//! Memory management and control transfer for booting an x86-64 kernel.
//!
//! The crate covers both sides of the handoff. The loader runs under the
//! firmware: it finds the kernel in its image, builds a temporary
//! page-table hierarchy that maps the kernel where it was linked, and
//! prepares the jump. The kernel then builds its own address space: a
//! linear mapping of physical memory, the mappings that it inherits from
//! the loader, and a heap.
//!
//! Physical memory is an explicit value, [`phys_mem::PhysMemory`], that
//! every routine receives, so all page-table manipulation is ordinary,
//! verified code. What the page tables of a memory mean is defined in
//! [`walk`], as the translation that the processor performs; the mapper,
//! the bootstrap routines and the loader's tables are specified in its
//! terms.
//!
//! The modules, leaves first:
//!
//! - [`frame_alloc`], [`heap`], [`locked`]: the two bump allocators, for
//!   frames and for bytes, and both behind a spin lock;
//! - [`phys_mem`], [`paging`], [`walk`]: memory, entries and tables, and
//!   the translation;
//! - [`mapper`], [`phys_map`], [`memory`]: the kernel's mapper, the linear
//!   mapping of physical memory, and the kernel's address space;
//! - [`elf`], [`loader`], [`boot_tables`], [`boot_sequence`]: the kernel
//!   image, what the loader computes from it, the loader's page tables,
//!   and the loader's sequence of steps;
//! - [`uefi`], [`console`]: the firmware's data types and the text for its
//!   console;
//! - [`gdt`], [`idt`]: descriptors;
//! - [`graphics`], [`psf2`], [`terminal`]: the screen, fonts, and text on
//!   the screen.

pub mod boot_sequence;
pub mod boot_tables;
pub mod console;
pub mod elf;
pub mod frame_alloc;
pub mod gdt;
pub mod graphics;
pub mod heap;
pub mod idt;
pub mod loader;
pub mod locked;
pub mod mapper;
pub mod memory;
pub mod paging;
pub mod phys_map;
pub mod phys_mem;
pub mod psf2;
pub mod terminal;
pub mod uefi;
pub mod walk;
