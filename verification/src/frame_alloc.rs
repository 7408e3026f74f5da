//! Physical frame allocation.
//!
//! Frames are handed out from a cursor that only ever moves forward. Nothing
//! is tracked per frame and nothing is ever reclaimed.

use vstd::prelude::*;

verus! {

/// The size of a physical frame in bytes.
pub const FRAME_SIZE: u64 = 4096;

/// Where the kernel's frame allocator starts: 32 MiB, above firmware and
/// low-memory structures.
pub const FRAME_ALLOCATOR_START: u64 = 0x200_0000;

/// Why a frame request could not be served.
#[derive(Clone, Copy, Debug, PartialEq, Eq, Structural)]
pub enum FrameError {
    /// The requested run does not fit below the end of the address space.
    Exhausted,
    /// Frames cannot be given back to this allocator.
    FreeUnsupported,
}

/// The end of a run of `count` frames that starts at `cursor`.
pub open spec fn run_end(cursor: u64, count: usize) -> int {
    cursor + count * 4096
}

/// What a request for `count` frames gives when the cursor stands at
/// `cursor`: the result, and the cursor afterwards. The run starts at the
/// cursor and the cursor moves to its end; a run that would pass the end
/// of the address space is refused and the cursor stays.
pub open spec fn allocated(cursor: u64, count: usize) -> (Result<u64, FrameError>, u64) {
    if run_end(cursor, count) <= u64::MAX {
        (Ok(cursor), run_end(cursor, count) as u64)
    } else {
        (Err(FrameError::Exhausted), cursor)
    }
}

/// Two consecutive requests for the same number of frames, at least one,
/// return runs that do not overlap: the second starts where the first
/// ends, `count * 4096` bytes behind the start of the first.
pub proof fn lemma_consecutive_runs(cursor: u64, count: usize, first: u64, second: u64)
    requires
        count >= 1,
        allocated(cursor, count).0 == Ok::<u64, FrameError>(first),
        allocated(allocated(cursor, count).1, count).0 == Ok::<u64, FrameError>(second),
    ensures
        second == first + count * 4096,
        first + count * 4096 <= second,
        first < second,
{
}

/// A request for no frames returns the cursor and leaves it where it is.
pub proof fn lemma_empty_run(cursor: u64)
    ensures
        allocated(cursor, 0) == (Ok::<u64, FrameError>(cursor), cursor),
{
}

/// A frame allocator that hands out consecutive frames and never reclaims.
#[derive(Clone, Copy, Debug)]
pub struct BumpAllocator {
    /// The address of the next free frame to be allocated.
    next: u64,
}

impl BumpAllocator {
    /// The address that the next allocation returns.
    pub closed spec fn cursor(&self) -> u64 {
        self.next
    }

    /// Creates a new bump allocator with the given physical start address.
    pub fn new(start: u64) -> (allocator: Self)
        ensures
            allocator.cursor() == start,
    {
        Self { next: start }
    }

    /// Returns the address that the next allocation would return.
    pub fn peek(&self) -> (addr: u64)
        ensures
            addr == self.cursor(),
    {
        self.next
    }

    /// Allocates `count` contiguous frames and returns the address of the
    /// first. The cursor advances by `count * 4096`; a request for no frames
    /// returns the cursor and leaves it where it is. The request fails, and
    /// changes nothing, exactly when the run would pass the end of the
    /// address space.
    pub fn allocate(&mut self, count: usize) -> (result: Result<u64, FrameError>)
        ensures
            (result, final(self).cursor()) == allocated(old(self).cursor(), count),
    {
        let addr = self.next;
        if count as u64 > (u64::MAX - addr) / FRAME_SIZE {
            return Err(FrameError::Exhausted);
        }
        self.next = addr + count as u64 * FRAME_SIZE;
        Ok(addr)
    }

    /// Frames are never reclaimed: every request to free is refused and the
    /// allocator stays as it is.
    pub fn free(&mut self, addr: u64, count: usize) -> (result: Result<(), FrameError>)
        ensures
            result == Err::<(), FrameError>(FrameError::FreeUnsupported),
            final(self).cursor() == old(self).cursor(),
    {
        Err(FrameError::FreeUnsupported)
    }
}

} // verus!
