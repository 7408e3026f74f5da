//! The allocators behind a lock.
//!
//! The frame allocator and the heap are each shared by the whole kernel. A
//! spin lock guards the cursor of each: a caller takes the lock, serves
//! its request from the cursor as it finds it, and puts the cursor back.
//! What a request returns therefore depends on the requests that were
//! served before it, which the caller does not see.

use vstd::prelude::*;
use crate::frame_alloc::{BumpAllocator, FrameError, FRAME_ALLOCATOR_START};
use crate::heap::{served, HeapAllocator};
use crate::mapper::MapError;
use crate::memory::{init_from, space_from, space_post, KernelSpace};
use crate::phys_mem::PhysMemory;
use crate::walk::tables_wf;

verus! {

/// The spin lock of the `spin` crate: a value of type `T` that is reached
/// through a guard only.
#[verifier::external_type_specification]
#[verifier::external_body]
#[verifier::reject_recursive_types(T)]
pub struct ExSpinMutex<T: ?Sized>(spin::Mutex<T>);

/// The guard of the `spin` crate's lock: it is held from the moment the
/// lock is taken until the guard is dropped.
#[verifier::external_type_specification]
#[verifier::external_body]
#[verifier::reject_recursive_types(T)]
pub struct ExSpinMutexGuard<'a, T: ?Sized + 'a>(spin::MutexGuard<'a, T>);

/// Calls `spin::Mutex::new`, which wraps the value in a lock that is not
/// held. Nothing is claimed of the result.
#[verifier::external_body]
fn mutex_new<T>(value: T) -> spin::Mutex<T> {
    spin::Mutex::new(value)
}

/// Calls `spin::Mutex::lock`, which spins until the lock is free, takes it
/// and returns the guard. It does not return while another guard of the
/// same lock is alive, so a caller holds one guard of a lock at a time.
/// Nothing is claimed of the value behind the guard.
#[verifier::external_body]
fn mutex_lock<'a, T>(mutex: &'a spin::Mutex<T>) -> spin::MutexGuard<'a, T> {
    mutex.lock()
}

/// Reads the value behind a guard through `Deref::deref` of
/// `spin::MutexGuard`. The value is whatever was put behind the lock last,
/// by whomever: nothing is claimed of it.
#[verifier::external_body]
fn guard_get<'a, T: Copy>(guard: &spin::MutexGuard<'a, T>) -> T {
    **guard
}

/// Writes the value behind a guard through `DerefMut::deref_mut` of
/// `spin::MutexGuard`. Nothing is claimed of the guard afterwards.
#[verifier::external_body]
fn guard_set<'a, T>(guard: &mut spin::MutexGuard<'a, T>, value: T) {
    **guard = value;
}

/// A bump allocator for frames behind a lock.
pub struct LockedBumpAllocator {
    inner: spin::Mutex<BumpAllocator>,
}

impl LockedBumpAllocator {
    /// Creates a new bump allocator with the given physical start address,
    /// behind a lock.
    pub fn new(addr: u64) -> Self {
        Self { inner: mutex_new(BumpAllocator::new(addr)) }
    }

    /// Allocates the given number of frames and returns the physical
    /// address on success. The address is the cursor as this request finds
    /// it behind the lock; whatever it is, the frames that are returned
    /// end inside the address space, and a request for no frames does not
    /// fail.
    pub fn allocate(&self, count: usize) -> (result: Result<u64, FrameError>)
        ensures
            result matches Ok(addr) ==> addr + count * 4096 <= u64::MAX,
            result matches Err(error) ==> error == FrameError::Exhausted && count > 0,
    {
        let mut guard = mutex_lock(&self.inner);
        let mut allocator = guard_get(&guard);
        let result = allocator.allocate(count);
        guard_set(&mut guard, allocator);
        result
    }

    /// Builds the kernel's address space with frames from this allocator,
    /// as `init_from` does, holding the lock from the first frame to the
    /// last. The loader's tables have to lie below the start of the kernel's
    /// frames. The frames are taken from the cursor as the call finds it
    /// behind the lock: whatever that cursor is, the call does what
    /// `space_from` says of it. So a space that is returned has its PML4 at
    /// that cursor, at or above the start of the kernel's frames, and is as
    /// `space_post` says; and no word is added to the memory or taken from
    /// it.
    pub fn init_space(&self, mem: &mut PhysMemory, existing_pml4_addr: u64) -> (result: Result<
        KernelSpace,
        MapError,
    >)
        requires
            old(mem).wf(),
            tables_wf(old(mem)@, existing_pml4_addr, FRAME_ALLOCATOR_START),
        ensures
            final(mem).wf(),
            final(mem)@.dom() == old(mem)@.dom(),
            exists|cursor: u64, new_cursor: u64|
                space_from(
                    old(mem)@,
                    existing_pml4_addr,
                    cursor,
                    result,
                    final(mem)@,
                    new_cursor,
                ),
            result matches Ok(space) ==> space.pml4 >= FRAME_ALLOCATOR_START && exists|
                new_cursor: u64,
            |
                space_post(
                    old(mem)@,
                    existing_pml4_addr,
                    space.pml4,
                    result,
                    final(mem)@,
                    new_cursor,
                ),
    {
        let mut guard = mutex_lock(&self.inner);
        let mut allocator = guard_get(&guard);
        let ghost cursor = allocator.cursor();
        let result = init_from(mem, &mut allocator, existing_pml4_addr);
        proof {
            assert(space_from(
                old(mem)@,
                existing_pml4_addr,
                cursor,
                result,
                mem@,
                allocator.cursor(),
            ));
            if result is Ok {
                let space = result->Ok_0;
                assert(space.pml4 == cursor);
                assert(space_post(
                    old(mem)@,
                    existing_pml4_addr,
                    space.pml4,
                    result,
                    mem@,
                    allocator.cursor(),
                ));
            }
        }
        guard_set(&mut guard, allocator);
        result
    }

    /// Tries to free a number of allocated frames, starting at the given
    /// address. The bump allocator cannot free frames.
    pub fn free(&self, addr: u64, count: usize) -> (result: Result<(), FrameError>)
        ensures
            result == Err::<(), FrameError>(FrameError::FreeUnsupported),
    {
        let mut guard = mutex_lock(&self.inner);
        let mut allocator = guard_get(&guard);
        let result = allocator.free(addr, count);
        guard_set(&mut guard, allocator);
        result
    }
}

/// The kernel heap behind a lock.
pub struct LockedHeapAllocator {
    inner: spin::Mutex<HeapAllocator>,
}

impl LockedHeapAllocator {
    /// A heap whose first byte is at `start`, behind a lock.
    pub fn new(start: u64) -> Self {
        Self { inner: mutex_new(HeapAllocator::new(start)) }
    }

    /// Allocates `size` bytes aligned to `align`. The request is served
    /// from the cursor as it stands behind the lock: whatever that cursor
    /// is, the answer is what `served` gives for it. So an address that is
    /// returned is a multiple of the alignment and the bytes end inside the
    /// address space; a request for an alignment of 0 returns nothing; and
    /// a request for no bytes at an alignment of 1, which fits at every
    /// cursor, is served.
    pub fn allocate(&self, size: usize, align: usize) -> (addr: Option<u64>)
        ensures
            exists|cursor: u64| addr == served(cursor, size, align),
            addr matches Some(a) ==> a % (align as u64) == 0 && a + size <= u64::MAX,
            align == 0 ==> addr is None,
            size == 0 && align == 1 ==> addr is Some,
    {
        let mut guard = mutex_lock(&self.inner);
        let mut heap = guard_get(&guard);
        let ghost cursor = heap.cursor();
        let addr = heap.allocate(size, align);
        proof {
            assert(addr == served(cursor, size, align));
        }
        guard_set(&mut guard, heap);
        addr
    }

    /// Gives memory back, which the heap does not take: nothing changes.
    pub fn dealloc(&self, addr: u64, size: usize, align: usize) {
        let mut guard = mutex_lock(&self.inner);
        let mut heap = guard_get(&guard);
        heap.dealloc(addr, size, align);
        guard_set(&mut guard, heap);
    }
}

} // verus!
