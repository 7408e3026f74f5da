//! The kernel heap: a bump allocator for bytes.
//!
//! Addresses are handed out from a cursor that only moves forward, rounded
//! up to the alignment asked for. Memory is never reclaimed.

use vstd::prelude::*;
use vstd::arithmetic::div_mod::{lemma_fundamental_div_mod, lemma_mod_multiples_basic};

verus! {

/// The virtual starting address of the kernel heap.
pub const HEAP_BASE: u64 = 0xffff_ff80_0000_0000;

/// The number of frames that are mapped for the kernel heap: 80 KiB.
pub const HEAP_FRAMES: usize = 20;

/// The first multiple of `align` at or above `addr`.
pub open spec fn round_up(addr: u64, align: usize) -> int {
    if addr % (align as u64) == 0 {
        addr as int
    } else {
        addr + align - addr % (align as u64)
    }
}

/// Whether a request for `size` bytes aligned to `align` can be served from
/// `cursor`: the alignment is not 0 and the bytes end inside the address
/// space.
pub open spec fn fits(cursor: u64, size: usize, align: usize) -> bool {
    align != 0 && round_up(cursor, align) + size <= u64::MAX
}

/// What a heap whose cursor is at `cursor` answers to a request for `size`
/// bytes aligned to `align`: the cursor rounded up, if the request can be
/// served.
pub open spec fn served(cursor: u64, size: usize, align: usize) -> Option<u64> {
    if fits(cursor, size, align) {
        Some(round_up(cursor, align) as u64)
    } else {
        None
    }
}

/// The first multiple of a positive `align` at or above `addr` is a
/// multiple of `align`, and lies less than `align` above `addr`.
pub proof fn lemma_round_up(addr: u64, align: usize)
    requires
        align > 0,
    ensures
        round_up(addr, align) % (align as int) == 0,
        addr <= round_up(addr, align) < addr + align,
{
    let a = addr as int;
    let m = align as int;
    if a % m != 0 {
        lemma_fundamental_div_mod(a, m);
        lemma_mod_multiples_basic(a / m + 1, m);
        assert(a + m - a % m == (a / m + 1) * m) by (nonlinear_arith)
            requires
                a == m * (a / m) + a % m,
        ;
    }
}

/// A bump allocator for the bytes of the kernel heap.
#[derive(Clone, Copy, Debug)]
pub struct HeapAllocator {
    start: u64,
}

impl HeapAllocator {
    /// The address from which the next request is served.
    pub closed spec fn cursor(&self) -> u64 {
        self.start
    }

    /// A heap whose first byte is at `start`.
    pub fn new(start: u64) -> (heap: Self)
        ensures
            heap.cursor() == start,
    {
        Self { start }
    }

    /// Allocates `size` bytes aligned to `align`. The cursor is rounded up
    /// to the alignment; the address returned is the rounded cursor, and
    /// the cursor then moves past the bytes. A request that cannot be
    /// served returns nothing and leaves the cursor where it is.
    pub fn allocate(&mut self, size: usize, align: usize) -> (addr: Option<u64>)
        ensures
            addr == served(old(self).cursor(), size, align),
            fits(old(self).cursor(), size, align) ==> addr == Some(
                round_up(old(self).cursor(), align) as u64,
            ) && final(self).cursor() == round_up(old(self).cursor(), align) + size,
            !fits(old(self).cursor(), size, align) ==> addr is None && final(self).cursor() == old(
                self,
            ).cursor(),
            addr matches Some(a) ==> a % (align as u64) == 0 && a >= old(self).cursor(),
    {
        if align == 0 {
            return None;
        }
        proof {
            lemma_round_up(self.start, align);
        }
        let rest = self.start % align as u64;
        let addr = if rest == 0 {
            self.start
        } else {
            match self.start.checked_add(align as u64 - rest) {
                Some(addr) => addr,
                None => {
                    return None;
                },
            }
        };
        match addr.checked_add(size as u64) {
            Some(next) => {
                self.start = next;
                Some(addr)
            },
            None => None,
        }
    }

    /// Gives memory back, which this heap does not take: nothing changes.
    pub fn dealloc(&mut self, addr: u64, size: usize, align: usize)
        ensures
            final(self).cursor() == old(self).cursor(),
    {
    }
}

/// The cursor of a heap that started at `cursor` and has served `requests`,
/// each a size and an alignment, one after the other; nothing if one of
/// them could not be served.
pub open spec fn cursor_after(cursor: u64, requests: Seq<(usize, usize)>) -> Option<u64>
    decreases requests.len(),
{
    if requests.len() == 0 {
        Some(cursor)
    } else {
        match cursor_after(cursor, requests.drop_last()) {
            Some(now) => if fits(now, requests.last().0, requests.last().1) {
                Some((round_up(now, requests.last().1) + requests.last().0) as u64)
            } else {
                None
            },
            None => None,
        }
    }
}

/// The address that request `i` of `requests` gets from a heap that started
/// at `cursor`.
pub open spec fn address_of(cursor: u64, requests: Seq<(usize, usize)>, i: int) -> u64 {
    round_up(cursor_after(cursor, requests.take(i))->0, requests[i].1) as u64
}

/// A heap that has served some requests has served each of their prefixes,
/// and its cursor has not moved back since.
proof fn lemma_cursor_grows(cursor: u64, requests: Seq<(usize, usize)>, i: int)
    requires
        cursor_after(cursor, requests) is Some,
        0 <= i <= requests.len(),
    ensures
        cursor_after(cursor, requests.take(i)) is Some,
        cursor_after(cursor, requests.take(i))->0 <= cursor_after(cursor, requests)->0,
    decreases requests.len(),
{
    if i == requests.len() {
        assert(requests.take(i) =~= requests);
    } else {
        let shorter = requests.drop_last();
        assert(shorter.take(i) =~= requests.take(i));
        lemma_cursor_grows(cursor, shorter, i);
        lemma_round_up(cursor_after(cursor, shorter)->0, requests.last().1);
    }
}

/// Every address that the heap returns is a multiple of the alignment asked
/// for, and lies at or above every address returned before plus the size
/// of that allocation.
pub proof fn lemma_heap_addresses(cursor: u64, requests: Seq<(usize, usize)>, i: int, j: int)
    requires
        cursor_after(cursor, requests) is Some,
        0 <= i < j < requests.len(),
    ensures
        address_of(cursor, requests, j) % (requests[j].1 as u64) == 0,
        address_of(cursor, requests, j) >= address_of(cursor, requests, i) + requests[i].0,
{
    let upto_j = requests.take(j);
    let with_j = requests.take(j + 1);
    let upto_i = requests.take(i);
    let with_i = requests.take(i + 1);
    lemma_cursor_grows(cursor, requests, j + 1);
    assert(with_j.drop_last() =~= upto_j);
    assert(with_j.last() == requests[j]);
    lemma_round_up(cursor_after(cursor, upto_j)->0, requests[j].1);
    lemma_cursor_grows(cursor, upto_j, i + 1);
    assert(upto_j.take(i + 1) =~= with_i);
    assert(with_i.drop_last() =~= upto_i);
    assert(with_i.last() == requests[i]);
}

} // verus!
