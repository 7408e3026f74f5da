//! Physical memory as an explicit value.
//!
//! Memory is a set of regions, each a run of whole frames. All access goes
//! through word reads and writes at physical addresses, so the rest of the
//! crate works on addresses and entries and never on pointers.

use vstd::prelude::*;

verus! {

/// One past the highest physical address that a page-table entry can name.
pub const MAX_PHYS_ADDR: u64 = 0x10_0000_0000_0000;

/// The number of 8-byte words in a frame.
pub const WORDS_PER_FRAME: usize = 512;

/// Why a region could not be added to a memory.
#[derive(Clone, Copy, Debug, PartialEq, Eq, Structural)]
pub enum RegionError {
    /// The base address is not a multiple of the frame size.
    Misaligned,
    /// The region would reach past the highest physical address.
    TooLarge,
    /// The region shares an address with a region that is already there.
    Overlap,
}

/// A run of whole frames starting at a frame-aligned address.
struct Region {
    base: u64,
    words: Vec<u64>,
}

impl Region {
    spec fn wf(&self) -> bool {
        &&& self.base % 4096 == 0
        &&& self.words@.len() > 0
        &&& self.words@.len() % 512 == 0
        &&& self.base + 8 * self.words@.len() <= MAX_PHYS_ADDR
    }

    spec fn end(&self) -> int {
        self.base + 8 * self.words@.len()
    }

    spec fn holds(&self, addr: u64) -> bool {
        self.base <= addr < self.end() && addr % 8 == 0
    }

    spec fn word(&self, addr: u64) -> u64 {
        self.words@[(addr - self.base) / 8]
    }

    fn has(&self, addr: u64) -> (found: bool)
        requires
            self.wf(),
        ensures
            found == self.holds(addr),
    {
        self.base <= addr && addr - self.base < 8 * (self.words.len() as u64) && addr % 8 == 0
    }
}

/// Whether `region` shares no address with the addresses from `base` up
/// to, but not including, `end`.
spec fn apart(region: Region, base: u64, end: u64) -> bool {
    region.end() <= base || end <= region.base
}

/// The word at `addr` in the first of the first `n` regions that holds it.
spec fn lookup(regions: Seq<Region>, n: int, addr: u64) -> Option<u64>
    decreases n,
{
    if n <= 0 {
        None
    } else {
        match lookup(regions, n - 1, addr) {
            Some(word) => Some(word),
            None => if regions[n - 1].holds(addr) {
                Some(regions[n - 1].word(addr))
            } else {
                None
            },
        }
    }
}

proof fn lemma_lookup_found(regions: Seq<Region>, i: int, n: int, addr: u64)
    requires
        0 <= i < n,
        lookup(regions, i, addr) is None,
        regions[i].holds(addr),
    ensures
        lookup(regions, n, addr) == Some(regions[i].word(addr)),
    decreases n,
{
    if n > i + 1 {
        lemma_lookup_found(regions, i, n - 1, addr);
    }
}

proof fn lemma_lookup_some(regions: Seq<Region>, n: int, addr: u64) -> (i: int)
    requires
        lookup(regions, n, addr) is Some,
    ensures
        0 <= i < n,
        regions[i].holds(addr),
        lookup(regions, i, addr) is None,
        lookup(regions, n, addr) == Some(regions[i].word(addr)),
    decreases n,
{
    if lookup(regions, n - 1, addr) is Some {
        lemma_lookup_some(regions, n - 1, addr)
    } else {
        n - 1
    }
}

proof fn lemma_lookup_none(regions: Seq<Region>, n: int, addr: u64)
    requires
        forall|i: int| 0 <= i < n ==> !(#[trigger] regions[i]).holds(addr),
    ensures
        lookup(regions, n, addr) is None,
    decreases n,
{
    if n > 0 {
        lemma_lookup_none(regions, n - 1, addr);
    }
}

/// The first frame-aligned address at or below `addr`.
pub open spec fn frame_of(addr: u64) -> u64 {
    (addr - addr % 4096) as u64
}

/// Whether every word of the frame at `frame` can be read and written.
pub open spec fn frame_backed(mem: Map<u64, u64>, frame: u64) -> bool {
    &&& frame % 4096 == 0
    &&& forall|i: int| 0 <= i < 512 ==> mem.dom().contains(#[trigger] word_addr(frame, i))
}

/// Whether every address of `mem` is a multiple of 8.
pub open spec fn words_aligned(mem: Map<u64, u64>) -> bool {
    forall|addr: u64| mem.dom().contains(addr) ==> addr % 8 == 0
}

/// The address of word `i` of the frame at `frame`.
pub open spec fn word_addr(frame: u64, i: int) -> u64 {
    (frame + 8 * i) as u64
}

/// Physical memory: the words that can be read and written, by address.
pub struct PhysMemory {
    regions: Vec<Region>,
}

impl View for PhysMemory {
    type V = Map<u64, u64>;

    /// The memory as a map from the address of each word to its value.
    closed spec fn view(&self) -> Map<u64, u64> {
        Map::new(
            |addr: u64| lookup(self.regions@, self.regions@.len() as int, addr) is Some,
            |addr: u64| lookup(self.regions@, self.regions@.len() as int, addr)->0,
        )
    }
}

impl PhysMemory {
    /// Whether the memory is made of whole frames below the highest physical
    /// address.
    pub closed spec fn wf(&self) -> bool {
        forall|i: int| 0 <= i < self.regions@.len() ==> (#[trigger] self.regions@[i]).wf()
    }

    /// A memory with no words.
    pub fn new() -> (mem: Self)
        ensures
            mem.wf(),
            mem@ == Map::<u64, u64>::empty(),
    {
        let mem = PhysMemory { regions: Vec::new() };
        assert(mem@ =~= Map::<u64, u64>::empty());
        mem
    }

    /// Every address of the memory is a multiple of 8 below the highest
    /// physical address.
    pub proof fn lemma_word_aligned(&self, addr: u64)
        requires
            self.wf(),
            self@.dom().contains(addr),
        ensures
            addr % 8 == 0,
            addr < MAX_PHYS_ADDR,
    {
        let n = self.regions@.len() as int;
        let i = lemma_lookup_some(self.regions@, n, addr);
        assert(self.regions@[i].wf());
    }

    /// Every address of the memory is a multiple of 8.
    pub proof fn lemma_words_aligned(&self)
        requires
            self.wf(),
        ensures
            words_aligned(self@),
    {
        assert forall|addr: u64| self@.dom().contains(addr) implies addr % 8 == 0 by {
            self.lemma_word_aligned(addr);
        }
    }

    /// Every address of the memory is a multiple of 8 below the highest
    /// physical address, and the memory has a frame whole or not at all.
    pub proof fn lemma_whole_frames(&self, addr: u64)
        requires
            self.wf(),
            self@.dom().contains(addr),
        ensures
            addr % 8 == 0,
            addr < MAX_PHYS_ADDR,
            frame_backed(self@, frame_of(addr)),
    {
        let n = self.regions@.len() as int;
        let i = lemma_lookup_some(self.regions@, n, addr);
        let region = self.regions@[i];
        let frame = frame_of(addr);
        assert(region.wf());
        assert forall|k: int| 0 <= k < 512 implies self@.dom().contains(
            #[trigger] word_addr(frame, k),
        ) by {
            let a = word_addr(frame, k);
            assert(region.holds(a));
            if lookup(self.regions@, i, a) is Some {
                lemma_lookup_found_before(self.regions@, i, n, a);
            } else {
                lemma_lookup_found(self.regions@, i, n, a);
            }
        }
    }

    /// Whether the memory has every word of the frame at `frame`.
    pub fn backs_frame(&self, frame: u64) -> (backed: bool)
        requires
            self.wf(),
        ensures
            backed == frame_backed(self@, frame),
    {
        if frame % 4096 != 0 {
            return false;
        }
        let first = self.read(frame);
        proof {
            assert(word_addr(frame, 0) == frame);
            if first is Some {
                self.lemma_whole_frames(frame);
            }
        }
        first.is_some()
    }

    /// Reads the word at `addr`, if the memory has one there.
    pub fn read(&self, addr: u64) -> (word: Option<u64>)
        requires
            self.wf(),
        ensures
            word == if self@.dom().contains(addr) {
                Some(self@[addr])
            } else {
                None
            },
    {
        let mut i: usize = 0;
        while i < self.regions.len()
            invariant
                self.wf(),
                i <= self.regions@.len(),
                lookup(self.regions@, i as int, addr) is None,
            decreases self.regions@.len() - i,
        {
            assert(self.regions@[i as int].wf());
            if self.regions[i].has(addr) {
                let len = self.regions[i].words.len();
                let offset = (addr - self.regions[i].base) / 8;
                assert(offset < len);
                let j = offset as usize;
                proof {
                    lemma_lookup_found(self.regions@, i as int, self.regions@.len() as int, addr);
                }
                return Some(self.regions[i].words[j]);
            }
            i += 1;
        }
        None
    }
}

/// What `mem` becomes when the word at `addr`, if it has one, is set to
/// `value`.
pub open spec fn written(mem: Map<u64, u64>, addr: u64, value: u64) -> Map<u64, u64> {
    if mem.dom().contains(addr) {
        mem.insert(addr, value)
    } else {
        mem
    }
}

/// What `mem` becomes when every word of the frame at `frame` is set to 0.
pub open spec fn zeroed(mem: Map<u64, u64>, frame: u64) -> Map<u64, u64> {
    Map::new(
        |addr: u64| mem.dom().contains(addr),
        |addr: u64|
            if frame <= addr < frame + 4096 {
                0
            } else {
                mem[addr]
            },
    )
}

/// What `mem` becomes when the first `count` words of the frame at `frame`
/// are set to 0.
spec fn zeroed_words(mem: Map<u64, u64>, frame: u64, count: int) -> Map<u64, u64> {
    Map::new(
        |addr: u64| mem.dom().contains(addr),
        |addr: u64|
            if frame <= addr < frame + 8 * count {
                0
            } else {
                mem[addr]
            },
    )
}

/// Whether the `frames` frames from `base` on share a word with `mem`.
pub open spec fn overlaps(mem: Map<u64, u64>, base: u64, frames: usize) -> bool {
    exists|addr: u64| base <= addr < base + 4096 * frames && mem.dom().contains(addr)
}

/// Why the `frames` frames from `base` on cannot be added to `mem`, if they
/// cannot.
pub open spec fn region_error(mem: Map<u64, u64>, base: u64, frames: usize) -> Option<
    RegionError,
> {
    if base % 4096 != 0 {
        Some(RegionError::Misaligned)
    } else if base + 4096 * frames > MAX_PHYS_ADDR || 512 * frames > usize::MAX {
        Some(RegionError::TooLarge)
    } else if overlaps(mem, base, frames) {
        Some(RegionError::Overlap)
    } else {
        None
    }
}

/// `mem` with the `frames` frames from `base` on added to it, all zero.
pub open spec fn extended(mem: Map<u64, u64>, base: u64, frames: usize) -> Map<u64, u64> {
    Map::new(
        |addr: u64|
            mem.dom().contains(addr) || (base <= addr < base + 4096 * frames && addr % 8 == 0),
        |addr: u64|
            if mem.dom().contains(addr) {
                mem[addr]
            } else {
                0
            },
    )
}

impl PhysMemory {
    /// Whether the memory has a word at an address from `base` up to, but
    /// not including, `end`.
    fn intersects(&self, base: u64, end: u64) -> (hit: bool)
        requires
            self.wf(),
            base % 4096 == 0,
        ensures
            hit == exists|addr: u64| base <= addr < end && self@.dom().contains(addr),
    {
        if base >= end {
            return false;
        }
        let mut i: usize = 0;
        while i < self.regions.len()
            invariant
                self.wf(),
                i <= self.regions@.len(),
                base % 4096 == 0,
                base < end,
                forall|k: int| 0 <= k < i ==> apart(#[trigger] self.regions@[k], base, end),
            decreases self.regions@.len() - i,
        {
            let start = self.regions[i].base;
            proof {
                assert(self.regions@[i as int].wf());
            }
            let stop = start + 8 * (self.regions[i].words.len() as u64);
            if base < stop && start < end {
                proof {
                    self.lemma_hit(i as int, base, end);
                }
                return true;
            }
            i += 1;
        }
        proof {
            self.lemma_miss(base, end);
        }
        false
    }

    proof fn lemma_hit(&self, i: int, base: u64, end: u64)
        requires
            self.wf(),
            0 <= i < self.regions@.len(),
            base % 4096 == 0,
            base < end,
            base < self.regions@[i].end(),
            self.regions@[i].base < end,
        ensures
            exists|addr: u64| base <= addr < end && self@.dom().contains(addr),
    {
        let region = self.regions@[i];
        assert(region.wf());
        let a = if base <= region.base {
            region.base
        } else {
            base
        };
        assert(region.base % 8 == 0 && base % 8 == 0);
        assert(region.holds(a));
        self.lemma_region_word(i, a);
        assert(base <= a < end && self@.dom().contains(a));
    }

    proof fn lemma_miss(&self, base: u64, end: u64)
        requires
            forall|k: int|
                0 <= k < self.regions@.len() ==> apart(#[trigger] self.regions@[k], base, end),
        ensures
            !exists|addr: u64| base <= addr < end && self@.dom().contains(addr),
    {
        let n = self.regions@.len() as int;
        assert forall|a: u64| base <= a < end implies !self@.dom().contains(a) by {
            assert forall|k: int| 0 <= k < n implies !(#[trigger] self.regions@[k]).holds(a) by {
                assert(apart(self.regions@[k], base, end));
            }
            lemma_lookup_none(self.regions@, n, a);
        }
    }

    proof fn lemma_zero_step(&self, frame: u64, i: int)
        requires
            self.wf(),
            0 <= i < 512,
            frame % 4096 == 0,
            frame < MAX_PHYS_ADDR,
            self@.dom().contains(word_addr(frame, i)),
        ensures
            written(zeroed_words(self@, frame, i), word_addr(frame, i), 0) == zeroed_words(
                self@,
                frame,
                i + 1,
            ),
    {
        let before = zeroed_words(self@, frame, i);
        let after = zeroed_words(self@, frame, i + 1);
        let target = word_addr(frame, i);
        let next = written(before, target, 0);
        assert(before.dom().contains(target));
        assert(next == before.insert(target, 0));
        assert(next.dom() =~= after.dom());
        assert forall|a: u64| after.dom().contains(a) implies #[trigger] next[a] == after[a] by {
            self.lemma_word_aligned(a);
            if a == target {
            } else {
                assert(next[a] == before[a]);
                assert(!(target < a < target + 8));
            }
        }
        assert(next =~= after);
    }

    proof fn lemma_region_word(&self, i: int, addr: u64)
        requires
            0 <= i < self.regions@.len(),
            self.regions@[i].holds(addr),
        ensures
            self@.dom().contains(addr),
    {
        let n = self.regions@.len() as int;
        if lookup(self.regions@, i, addr) is Some {
            lemma_lookup_found_before(self.regions@, i, n, addr);
        } else {
            lemma_lookup_found(self.regions@, i, n, addr);
        }
    }

    /// Writes `value` to the word at `addr`. Returns whether the memory has
    /// a word there; if it has none, nothing changes.
    pub fn write(&mut self, addr: u64, value: u64) -> (done: bool)
        requires
            old(self).wf(),
        ensures
            final(self).wf(),
            done == old(self)@.dom().contains(addr),
            final(self)@ == written(old(self)@, addr, value),
    {
        let mut i: usize = 0;
        while i < self.regions.len()
            invariant
                *self == *old(self),
                self.wf(),
                i <= self.regions@.len(),
                lookup(self.regions@, i as int, addr) is None,
            decreases self.regions@.len() - i,
        {
            assert(self.regions@[i as int].wf());
            if self.regions[i].has(addr) {
                let len = self.regions[i].words.len();
                let offset = (addr - self.regions[i].base) / 8;
                assert(offset < len);
                let j = offset as usize;
                let region = &mut self.regions[i];
                region.words.set(j, value);
                proof {
                    let n = self.regions@.len() as int;
                    lemma_lookup_found(old(self).regions@, i as int, n, addr);
                    assert forall|k: int| 0 <= k < n implies (#[trigger] self.regions@[k]).wf() by {
                        assert(old(self).regions@[k].wf());
                    }
                    assert forall|a: u64|
                        lookup(self.regions@, n, a) == #[trigger] written_lookup(
                            lookup(old(self).regions@, n, a),
                            a,
                            addr,
                            value,
                        ) by {
                        lemma_lookup_update(
                            old(self).regions@,
                            self.regions@,
                            i as int,
                            n,
                            addr,
                            value,
                            a,
                        );
                    }
                    assert forall|a: u64| #[trigger]
                        self@.dom().contains(a) == written(old(self)@, addr, value).dom().contains(
                            a,
                        ) by {
                        let _ = written_lookup(lookup(old(self).regions@, n, a), a, addr, value);
                    }
                    assert forall|a: u64| #[trigger] self@.dom().contains(a) implies self@[a]
                        == written(old(self)@, addr, value)[a] by {
                        let _ = written_lookup(lookup(old(self).regions@, n, a), a, addr, value);
                    }
                    assert(self@ =~= written(old(self)@, addr, value));
                }
                return true;
            }
            i += 1;
        }
        false
    }

    /// Sets every word of the frame at `frame` to 0. Returns whether the
    /// memory has that frame; if it has not, nothing changes.
    pub fn zero_frame(&mut self, frame: u64) -> (done: bool)
        requires
            old(self).wf(),
        ensures
            final(self).wf(),
            done == frame_backed(old(self)@, frame),
            final(self)@ == if done {
                zeroed(old(self)@, frame)
            } else {
                old(self)@
            },
    {
        if !self.backs_frame(frame) {
            return false;
        }
        proof {
            assert(word_addr(frame, 0) == frame);
            self.lemma_whole_frames(frame);
        }
        let mut i: u64 = 0;
        while i < 512
            invariant
                self.wf(),
                i <= 512,
                frame % 4096 == 0,
                frame < MAX_PHYS_ADDR,
                frame_backed(old(self)@, frame),
                old(self).wf(),
                self@ == zeroed_words(old(self)@, frame, i as int),
            decreases 512 - i,
        {
            proof {
                assert(old(self)@.dom().contains(word_addr(frame, i as int)));
                old(self).lemma_zero_step(frame, i as int);
            }
            self.write(frame + 8 * i, 0);
            i += 1;
        }
        proof {
            assert(self@ =~= zeroed(old(self)@, frame));
        }
        true
    }

    /// Adds the `frames` frames from `base` on to the memory, all zero. The
    /// frames must start at a multiple of the frame size, end at or below
    /// the highest physical address and share no word with the memory.
    pub fn add_region(&mut self, base: u64, frames: usize) -> (result: Result<(), RegionError>)
        requires
            old(self).wf(),
        ensures
            final(self).wf(),
            match region_error(old(self)@, base, frames) {
                Some(e) => result == Err::<(), RegionError>(e) && final(self)@ == old(self)@,
                None => result == Ok::<(), RegionError>(()) && final(self)@ == extended(
                    old(self)@,
                    base,
                    frames,
                ),
            },
    {
        if base % 4096 != 0 {
            return Err(RegionError::Misaligned);
        }
        if base > MAX_PHYS_ADDR || frames as u64 > (MAX_PHYS_ADDR - base) / 4096 {
            return Err(RegionError::TooLarge);
        }
        let len = match frames.checked_mul(512) {
            Some(len) => len,
            None => {
                return Err(RegionError::TooLarge);
            },
        };
        let end = base + 4096 * (frames as u64);
        if self.intersects(base, end) {
            return Err(RegionError::Overlap);
        }
        if frames == 0 {
            assert(self@ =~= extended(old(self)@, base, frames));
            return Ok(());
        }
        let words: Vec<u64> = vec![0u64; len];
        let region = Region { base, words };
        self.regions.push(region);
        proof {
            let n = old(self).regions@.len() as int;
            assert(self.regions@[n].wf());
            assert forall|k: int| 0 <= k < n + 1 implies (#[trigger] self.regions@[k]).wf() by {
                if k < n {
                    assert(old(self).regions@[k].wf());
                }
            }
            assert forall|a: u64|
                lookup(self.regions@, n + 1, a) == #[trigger] extended_lookup(
                    lookup(old(self).regions@, n, a),
                    a,
                    base,
                    end as int,
                ) by {
                lemma_lookup_prefix(old(self).regions@, self.regions@, n, a);
            }
            assert forall|a: u64| #[trigger]
                self@.dom().contains(a) == extended(old(self)@, base, frames).dom().contains(
                    a,
                ) by {
                let _ = extended_lookup(lookup(old(self).regions@, n, a), a, base, end as int);
            }
            assert forall|a: u64| #[trigger] self@.dom().contains(a) implies self@[a] == extended(
                old(self)@,
                base,
                frames,
            )[a] by {
                let _ = extended_lookup(lookup(old(self).regions@, n, a), a, base, end as int);
            }
            assert(self@ =~= extended(old(self)@, base, frames));
        }
        Ok(())
    }
}

spec fn written_lookup(before: Option<u64>, a: u64, addr: u64, value: u64) -> Option<u64> {
    if a == addr {
        Some(value)
    } else {
        before
    }
}

spec fn extended_lookup(before: Option<u64>, a: u64, base: u64, end: int) -> Option<u64> {
    if before is Some {
        before
    } else if base <= a < end && a % 8 == 0 {
        Some(0)
    } else {
        None
    }
}

proof fn lemma_lookup_update(
    before: Seq<Region>,
    after: Seq<Region>,
    i: int,
    n: int,
    addr: u64,
    value: u64,
    a: u64,
)
    requires
        0 <= i < n <= before.len(),
        before.len() == after.len(),
        forall|k: int| 0 <= k < before.len() && k != i ==> after[k] == before[k],
        before[i].wf(),
        before[i].holds(addr),
        lookup(before, i, addr) is None,
        after[i].base == before[i].base,
        after[i].words@ == before[i].words@.update((addr - before[i].base) / 8, value),
    ensures
        lookup(after, n, a) == written_lookup(lookup(before, n, a), a, addr, value),
    decreases n,
{
    lemma_lookup_same(before, after, i, i, a);
    if n > i + 1 {
        lemma_lookup_update(before, after, i, n - 1, addr, value, a);
    } else {
        if a == addr {
        } else if before[i].holds(a) {
            assert((a - before[i].base) / 8 != (addr - before[i].base) / 8);
        }
    }
}

proof fn lemma_lookup_same(before: Seq<Region>, after: Seq<Region>, i: int, n: int, a: u64)
    requires
        0 <= n <= i <= before.len(),
        i <= after.len(),
        forall|k: int| 0 <= k < i ==> after[k] == before[k],
    ensures
        lookup(after, n, a) == lookup(before, n, a),
    decreases n,
{
    if n > 0 {
        lemma_lookup_same(before, after, i, n - 1, a);
    }
}

proof fn lemma_lookup_prefix(before: Seq<Region>, after: Seq<Region>, n: int, a: u64)
    requires
        n == before.len(),
        after.len() == n + 1,
        forall|k: int| 0 <= k < n ==> after[k] == before[k],
        after[n].words@.len() > 0 ==> forall|j: int|
            0 <= j < after[n].words@.len() ==> after[n].words@[j] == 0,
    ensures
        lookup(after, n + 1, a) == if lookup(before, n, a) is Some {
            lookup(before, n, a)
        } else if after[n].holds(a) {
            Some(0u64)
        } else {
            None
        },
{
    lemma_lookup_same(before, after, n, n, a);
}

proof fn lemma_lookup_found_before(regions: Seq<Region>, i: int, n: int, addr: u64)
    requires
        0 <= i <= n,
        lookup(regions, i, addr) is Some,
    ensures
        lookup(regions, n, addr) == lookup(regions, i, addr),
    decreases n,
{
    if n > i {
        lemma_lookup_found_before(regions, i, n - 1, addr);
    }
}

} // verus!
