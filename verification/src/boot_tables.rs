//! The loader's temporary page tables.
//!
//! After the firmware's boot services are gone, the loader builds a small
//! hierarchy at a fixed low address: the first 4 GiB mapped onto
//! themselves with huge pages, each page of the kernel mapped to where the
//! kernel was linked, and the page with the entry data mapped to where the
//! kernel expects it. The tables come from a budget of ten frames.

use vstd::prelude::*;
use crate::frame_alloc::BumpAllocator;
use crate::mapper::{
    frame_ready, mapped, missing_tables, only_tables_touched, path_huge, tables_created,
    tables_kept, Mapper,
};
use crate::paging::{
    entry_addr, frame_addr, lemma_known_flags, lemma_pack_unpack, lemma_present_kept, pdp_index_of,
    pml4_index_of, HUGE_PAGE_FLAGS, TABLE_FLAGS,
};
use crate::phys_map::{frames_backed, lemma_run_same, run_backed};
use crate::phys_mem::{frame_backed, word_addr, zeroed, PhysMemory, MAX_PHYS_ADDR};
use crate::walk::{
    entry_at, leaf_of, leaf_set, lemma_empty_root, lemma_link, lemma_set_page, linked, page_set,
    same_page, slot, table_of, tables_wf, translate_spec,
};

verus! {

/// The physical address of the loader's PML4 and of the frames behind it
/// that the page tables are made of.
pub const PAGING_BASE: u64 = 0x70000;

/// The amount of pages we will reserve for our own paging tables.
pub const PAGING_PAGES_COUNT: usize = 10;

/// The physical address of the PDP that maps the first 4 GiB onto
/// themselves.
pub const IDENTITY_PDP: u64 = 0x71000;

/// The size of the huge pages of the identity mapping: 1 GiB.
pub const IDENTITY_PAGE_SIZE: u64 = 0x4000_0000;

/// Why the loader's page tables could not be built.
#[derive(Clone, Copy, Debug, PartialEq, Eq, Structural)]
pub enum PagingError {
    /// The frames for the page tables are no frames of the memory.
    NoMemory,
    /// Ran out of page tables.
    OutOfPageTables,
    /// There is already a mapping for the page, and it names another
    /// frame.
    Conflict,
    /// A huge page stands where the walk needs a table.
    HugePage,
}

/// The physical address of frame `n` of the loader's page tables.
pub open spec fn paging_frame(n: int) -> u64 {
    (PAGING_BASE + 4096 * n) as u64
}

/// Whether the loader's hierarchy is well formed in `mem` with the first
/// `next` frames of its budget in use: the ten frames are frames of the
/// memory, and the tables are among the first `next` of them.
pub open spec fn boot_wf(mem: Map<u64, u64>, next: usize) -> bool {
    &&& next <= 10
    &&& run_backed(mem, PAGING_BASE, 10)
    &&& tables_wf(mem, PAGING_BASE, paging_frame(next as int))
}

/// Whether the page of `virt` is mapped already, to another frame than
/// `phys`.
pub open spec fn conflicts(mem: Map<u64, u64>, virt: u64, phys: u64) -> bool {
    leaf_of(mem, PAGING_BASE, virt) matches Some((entry, level)) && level == 1 && entry_addr(entry)
        != phys
}

/// What becomes of a request to map the page of `virt` to `phys` when
/// `next` frames of the budget are in use: the number of frames in use
/// afterwards, or the reason for which the page cannot be mapped. The last
/// frame of the budget is never handed out.
pub open spec fn page_outcome(mem: Map<u64, u64>, next: usize, virt: u64, phys: u64) -> Result<
    usize,
    PagingError,
> {
    let wanted = missing_tables(mem, PAGING_BASE, virt);
    if next >= 10 {
        Err(PagingError::OutOfPageTables)
    } else if path_huge(mem, PAGING_BASE, virt) {
        Err(PagingError::HugePage)
    } else if next + wanted > 9 {
        Err(PagingError::OutOfPageTables)
    } else if conflicts(mem, virt, phys) {
        Err(PagingError::Conflict)
    } else {
        Ok((next + wanted) as usize)
    }
}

/// What mapping the page of `virt` to `phys` does to the loader's
/// hierarchy. A request that fails changes nothing. One that succeeds
/// creates the missing tables from the next frames of the budget and makes
/// the page present and writable at `phys`: the memory afterwards is, word
/// for word, what `mapped` gives for the entry `phys | 3` and the next
/// frame of the budget. Every other address maps as before, and no word
/// of memory is touched but in the page tables.
#[verifier::opaque]
pub open spec fn page_post(
    before: Map<u64, u64>,
    next: usize,
    virt: u64,
    phys: u64,
    result: Result<usize, PagingError>,
    after: Map<u64, u64>,
) -> bool {
    &&& result == page_outcome(before, next, virt, phys)
    &&& match result {
        Ok(used) => {
            &&& after == mapped(
                before,
                paging_frame(next as int),
                PAGING_BASE,
                virt,
                (phys | TABLE_FLAGS),
            )
            &&& after.dom() == before.dom()
            &&& boot_wf(after, used)
            &&& tables_kept(before, after, PAGING_BASE)
            &&& only_tables_touched(
                before,
                after,
                PAGING_BASE,
                paging_frame(next as int),
                paging_frame(used as int),
            )
            &&& forall|v: u64| #[trigger]
                leaf_of(after, PAGING_BASE, v) == leaf_set(
                    before,
                    PAGING_BASE,
                    virt,
                    (phys | TABLE_FLAGS),
                    v,
                )
        },
        Err(_) => after == before,
    }
}

proof fn lemma_budget_ready(mem: Map<u64, u64>, next: usize, wanted: nat)
    requires
        run_backed(mem, PAGING_BASE, 10),
        next + wanted <= 9,
        wanted <= 3,
    ensures
        tables_created(mem, paging_frame(next as int), wanted) == wanted,
{
    if wanted >= 1 {
        assert(frame_ready(mem, PAGING_BASE, next as int));
    }
    if wanted >= 2 {
        assert(frame_ready(mem, PAGING_BASE, next + 1));
    }
    if wanted >= 3 {
        assert(frame_ready(mem, PAGING_BASE, next + 2));
    }
}

/// Maps a single 4 KiB page.
///
/// Helps keep track of how many paging pages we have left: takes the
/// number of frames of the budget that are in use and returns that number
/// as it is afterwards. Addresses must be properly aligned. The page must
/// not be mapped to another frame already, and the budget has to hold the
/// tables that the walk lacks: `map_page_checked` is for a caller that has
/// not made sure of this. A fresh table is zeroed when it is linked in.
pub fn map_page(mem: &mut PhysMemory, virt: u64, phys: u64, next_paging_page: usize) -> (result:
    Result<usize, PagingError>)
    requires
        old(mem).wf(),
        boot_wf(old(mem)@, next_paging_page),
        virt % 4096 == 0,
        phys % 4096 == 0,
        !conflicts(old(mem)@, virt, phys),
        next_paging_page + missing_tables(old(mem)@, PAGING_BASE, virt) <= 9,
    ensures
        final(mem).wf(),
        page_post(old(mem)@, next_paging_page, virt, phys, result, final(mem)@),
        result == page_outcome(old(mem)@, next_paging_page, virt, phys),
        result matches Ok(used) ==> boot_wf(final(mem)@, used),
        result is Ok ==> final(mem)@ == mapped(
            old(mem)@,
            paging_frame(next_paging_page as int),
            PAGING_BASE,
            virt,
            (phys | TABLE_FLAGS),
        ),
        result matches Err(error) ==> error == PagingError::HugePage && final(mem)@ == old(mem)@,
{
    proof {
        reveal(page_post);
    }
    let ghost before = mem@;
    let mapper = Mapper::new(PAGING_BASE);
    let wanted = match mapper.missing(mem, virt) {
        Ok(wanted) => wanted,
        Err(_) => {
            return Err(PagingError::HugePage);
        },
    };
    let mut alloc = BumpAllocator::new(PAGING_BASE + 4096 * next_paging_page as u64);
    proof {
        lemma_budget_ready(before, next_paging_page, wanted as nat);
    }
    match mapper.map(mem, &mut alloc, virt, phys, TABLE_FLAGS) {
        Ok(()) => {},
        Err(_) => {
            return Err(PagingError::HugePage);
        },
    }
    proof {
        lemma_run_same(before, mem@, PAGING_BASE, 10);
    }
    Ok(next_paging_page + wanted)
}

/// Maps a single 4 KiB page, as `map_page` does, for a caller that has not
/// made sure that the page can be mapped: a page that is mapped to another
/// frame already, and a budget that does not hold the tables that the walk
/// lacks, are refused, and nothing is written.
pub fn map_page_checked(
    mem: &mut PhysMemory,
    virt: u64,
    phys: u64,
    next_paging_page: usize,
) -> (result: Result<usize, PagingError>)
    requires
        old(mem).wf(),
        boot_wf(old(mem)@, next_paging_page),
        virt % 4096 == 0,
        phys % 4096 == 0,
    ensures
        final(mem).wf(),
        page_post(old(mem)@, next_paging_page, virt, phys, result, final(mem)@),
        result == page_outcome(old(mem)@, next_paging_page, virt, phys),
        result matches Ok(used) ==> boot_wf(final(mem)@, used),
        result is Ok ==> final(mem)@ == mapped(
            old(mem)@,
            paging_frame(next_paging_page as int),
            PAGING_BASE,
            virt,
            (phys | TABLE_FLAGS),
        ),
        result is Err ==> final(mem)@ == old(mem)@,
{
    proof {
        reveal(page_post);
    }
    if next_paging_page >= PAGING_PAGES_COUNT {
        return Err(PagingError::OutOfPageTables);
    }
    let mapper = Mapper::new(PAGING_BASE);
    let wanted = match mapper.missing(mem, virt) {
        Ok(wanted) => wanted,
        Err(_) => {
            return Err(PagingError::HugePage);
        },
    };
    if next_paging_page + wanted > 9 {
        return Err(PagingError::OutOfPageTables);
    }
    match mapper.lookup(mem, virt) {
        Some((entry, level)) => {
            if level == 1 && entry.addr() != phys {
                return Err(PagingError::Conflict);
            }
        },
        None => {},
    }
    map_page(mem, virt, phys, next_paging_page)
}

/// The virtual address of page `i` of a run of pages from `virt` on.
pub open spec fn run_addr(virt: u64, i: int) -> u64 {
    (virt + 4096 * i) as u64
}

/// Whether `mems` and `used` are the memories and the numbers of frames in
/// use through a run of pages mapped one after the other, from `virt` on
/// to the frames from `phys` on: the first are those before the run, and
/// each page takes the run from one to the next as `page_post` says.
#[verifier::opaque]
pub open spec fn pages_run(
    before: Map<u64, u64>,
    next: usize,
    virt: u64,
    phys: u64,
    mems: Seq<Map<u64, u64>>,
    used: Seq<usize>,
) -> bool {
    &&& mems.len() == used.len()
    &&& mems.len() >= 1
    &&& mems[0] == before
    &&& used[0] == next
    &&& forall|i: int|
        0 <= i < mems.len() - 1 ==> page_post(
            #[trigger] mems[i],
            used[i],
            run_addr(virt, i),
            run_addr(phys, i),
            Ok::<usize, PagingError>(used[i + 1]),
            mems[i + 1],
        )
}

/// What mapping `count` consecutive pages, from `virt` on to the frames
/// from `phys` on, does to the loader's hierarchy: the pages are mapped
/// one after the other as `page_post` says, up to the first that fails,
/// whose failure is the result.
#[verifier::opaque]
pub open spec fn pages_post(
    before: Map<u64, u64>,
    next: usize,
    virt: u64,
    phys: u64,
    count: nat,
    result: Result<usize, PagingError>,
    after: Map<u64, u64>,
) -> bool {
    exists|mems: Seq<Map<u64, u64>>, used: Seq<usize>|
        {
            &&& #[trigger] pages_run(before, next, virt, phys, mems, used)
            &&& mems.len() <= count + 1
            &&& after == mems.last()
            &&& if mems.len() == count + 1 {
                result == Ok::<usize, PagingError>(used.last())
            } else {
                &&& result is Err
                &&& result == page_outcome(
                    after,
                    used.last(),
                    run_addr(virt, mems.len() - 1),
                    run_addr(phys, mems.len() - 1),
                )
            }
        }
}

/// Maps `count` consecutive pages, from `virt` on, to the frames from
/// `phys` on, and returns the number of frames of the budget that are in
/// use afterwards. Stops at the first page that cannot be mapped.
pub fn map_pages(
    mem: &mut PhysMemory,
    virt: u64,
    phys: u64,
    count: u64,
    next_paging_page: usize,
) -> (result: Result<usize, PagingError>)
    requires
        old(mem).wf(),
        boot_wf(old(mem)@, next_paging_page),
        virt % 4096 == 0,
        phys % 4096 == 0,
        virt + 4096 * count <= u64::MAX + 1,
        phys + 4096 * count <= u64::MAX + 1,
    ensures
        final(mem).wf(),
        pages_post(old(mem)@, next_paging_page, virt, phys, count as nat, result, final(mem)@),
        result matches Ok(used) ==> boot_wf(final(mem)@, used),
{
    proof {
        reveal(pages_run);
        reveal(pages_post);
    }
    let ghost before = mem@;
    let ghost mut mems: Seq<Map<u64, u64>> = seq![before];
    let ghost mut used: Seq<usize> = seq![next_paging_page];
    let mut next = next_paging_page;
    let mut i: u64 = 0;
    while i < count
        invariant
            i <= count,
            mem.wf(),
            before == old(mem)@,
            boot_wf(mem@, next),
            virt % 4096 == 0,
            phys % 4096 == 0,
            virt + 4096 * count <= u64::MAX + 1,
            phys + 4096 * count <= u64::MAX + 1,
            pages_run(before, next_paging_page, virt, phys, mems, used),
            mems.len() == i + 1,
            mems.last() == mem@,
            used.last() == next,
        decreases count - i,
    {
        let ghost mid = mem@;
        let outcome = map_page_checked(mem, virt + i * 4096, phys + i * 4096, next);
        proof {
            reveal(pages_run);
            reveal(pages_post);
            assert(run_addr(virt, mems.len() - 1) == virt + i * 4096);
            assert(run_addr(phys, mems.len() - 1) == phys + i * 4096);
            assert(page_post(
                mid,
                next,
                run_addr(virt, i as int),
                run_addr(phys, i as int),
                outcome,
                mem@,
            ));
        }
        match outcome {
            Ok(more) => {
                proof {
                    let longer = mems.push(mem@);
                    let counted = used.push(more);
                    assert forall|k: int| 0 <= k < longer.len() - 1 implies page_post(
                        #[trigger] longer[k],
                        counted[k],
                        run_addr(virt, k),
                        run_addr(phys, k),
                        Ok::<usize, PagingError>(counted[k + 1]),
                        longer[k + 1],
                    ) by {
                        if k < mems.len() - 1 {
                            assert(page_post(
                                mems[k],
                                used[k],
                                run_addr(virt, k),
                                run_addr(phys, k),
                                Ok::<usize, PagingError>(used[k + 1]),
                                mems[k + 1],
                            ));
                        }
                    }
                    mems = longer;
                    used = counted;
                }
                next = more;
            },
            Err(error) => {
                proof {
                    assert(mem@ == mid);
                    assert(outcome == page_outcome(
                        mid,
                        next,
                        run_addr(virt, mems.len() - 1),
                        run_addr(phys, mems.len() - 1),
                    ));
                    assert(pages_run(before, next_paging_page, virt, phys, mems, used));
                }
                return Err(error);
            },
        }
        i += 1;
    }
    proof {
        assert(pages_run(before, next_paging_page, virt, phys, mems, used));
    }
    Ok(next)
}

/// The number of pages that `size` bytes take.
pub open spec fn pages_of(size: u64) -> u64 {
    ((size + 4095) / 4096) as u64
}

/// The number of pages that `size` bytes take: `size` divided by the page
/// size, rounded up.
pub fn pages_for(size: u64) -> (pages: u64)
    ensures
        pages == pages_of(size),
{
    if size % 4096 == 0 {
        size / 4096
    } else {
        size / 4096 + 1
    }
}

/// `before` with the `count` frames from `base` on set to 0.
pub open spec fn zeroed_run(before: Map<u64, u64>, base: u64, count: int) -> Map<u64, u64> {
    Map::new(
        |addr: u64| before.dom().contains(addr),
        |addr: u64|
            if base <= addr < base + 4096 * count {
                0
            } else {
                before[addr]
            },
    )
}

/// Entry `i` of the PDP of the identity mapping: the huge page at `i`
/// GiB, present and writable.
pub open spec fn identity_word(i: int) -> u64 {
    ((0x4000_0000 * i) as u64) | HUGE_PAGE_FLAGS
}

/// The memory once the ten frames are zeroed, the PML4 references the PDP
/// of the identity mapping, and that PDP maps the first 4 GiB.
pub open spec fn boot_initial(before: Map<u64, u64>) -> Map<u64, u64> {
    zeroed_run(before, PAGING_BASE, 10).insert(
        slot(PAGING_BASE, 0),
        (IDENTITY_PDP | TABLE_FLAGS),
    ).insert(slot(IDENTITY_PDP, 0), identity_word(0)).insert(
        slot(IDENTITY_PDP, 1),
        identity_word(1),
    ).insert(slot(IDENTITY_PDP, 2), identity_word(2)).insert(
        slot(IDENTITY_PDP, 3),
        identity_word(3),
    )
}

/// The mapping of `v` in the loader's hierarchy before the kernel is
/// mapped: a 1 GiB page for the addresses of the first 4 GiB, nothing
/// else.
pub open spec fn identity_leaf(v: u64) -> Option<(u64, int)> {
    if pml4_index_of(v) == 0 && pdp_index_of(v) < 4 {
        Some((identity_word(pdp_index_of(v) as int), 3int))
    } else {
        None
    }
}

/// What building the loader's page tables does. Without the ten frames
/// nothing is done. With them, the frames are zeroed and the identity
/// mapping is set up; then the pages of the kernel are mapped one after
/// the other, and after them the page of the entry data.
#[verifier::opaque]
pub open spec fn boot_post(
    before: Map<u64, u64>,
    kernel_virt: u64,
    kernel_phys: u64,
    kernel_size: u64,
    entry_virt: u64,
    entry_phys: u64,
    result: Result<usize, PagingError>,
    after: Map<u64, u64>,
) -> bool {
    if !run_backed(before, PAGING_BASE, 10) {
        result == Err::<usize, PagingError>(PagingError::NoMemory) && after == before
    } else {
        exists|reached: Result<usize, PagingError>, mid: Map<u64, u64>|
            {
                &&& #[trigger] pages_post(
                    boot_initial(before),
                    2,
                    kernel_virt,
                    kernel_phys,
                    pages_of(kernel_size) as nat,
                    reached,
                    mid,
                )
                &&& match reached {
                    Ok(used) => page_post(mid, used, entry_virt, entry_phys, result, after),
                    Err(error) => result == Err::<usize, PagingError>(error) && after == mid,
                }
            }
    }
}

proof fn lemma_identity_bits()
    by (bit_vector)
    ensures
        (0u64 >> 39) % 512 == 0,
        (0u64 >> 30) % 512 == 0,
        (0x4000_0000u64 >> 39) % 512 == 0,
        (0x4000_0000u64 >> 30) % 512 == 1,
        (0x8000_0000u64 >> 39) % 512 == 0,
        (0x8000_0000u64 >> 30) % 512 == 2,
        (0xc000_0000u64 >> 39) % 512 == 0,
        (0xc000_0000u64 >> 30) % 512 == 3,
{
}

proof fn lemma_zeroed_run(before: Map<u64, u64>, base: u64, i: int)
    requires
        0 <= i,
        base % 4096 == 0,
        base + 4096 * (i + 1) <= u64::MAX,
    ensures
        zeroed(zeroed_run(before, base, i), (base + 4096 * i) as u64) == zeroed_run(
            before,
            base,
            i + 1,
        ),
        zeroed_run(before, base, 0) == before,
        zeroed_run(before, base, i).dom() == before.dom(),
{
    assert(zeroed(zeroed_run(before, base, i), (base + 4096 * i) as u64) =~= zeroed_run(
        before,
        base,
        i + 1,
    ));
    assert(zeroed_run(before, base, 0) =~= before);
    assert(zeroed_run(before, base, i).dom() =~= before.dom());
}

/// The words of a frame of the zeroed budget read as 0.
proof fn lemma_zeroed_frame(before: Map<u64, u64>, n: int, i: u16)
    requires
        run_backed(before, PAGING_BASE, 10),
        0 <= n < 10,
        i < 512,
    ensures
        entry_at(zeroed_run(before, PAGING_BASE, 10), paging_frame(n), i) == 0,
        frame_backed(zeroed_run(before, PAGING_BASE, 10), paging_frame(n)),
        frame_addr(paging_frame(n)),
{
    let z = zeroed_run(before, PAGING_BASE, 10);
    assert(frame_ready(before, PAGING_BASE, n));
    assert(z.dom() =~= before.dom());
    assert forall|k: int| 0 <= k < 512 implies z.dom().contains(
        #[trigger] word_addr(paging_frame(n), k),
    ) by {
        assert(before.dom().contains(word_addr(paging_frame(n), k)));
    }
}

/// The loader's hierarchy with the identity mapping in it is well formed,
/// uses two frames of the budget, and maps the first 4 GiB onto
/// themselves and nothing else.
pub proof fn lemma_boot_initial(before: Map<u64, u64>)
    requires
        run_backed(before, PAGING_BASE, 10),
    ensures
        boot_wf(boot_initial(before), 2),
        boot_initial(before).dom() == before.dom(),
        forall|v: u64| #[trigger] leaf_of(boot_initial(before), PAGING_BASE, v) == identity_leaf(v),
{
    let z = zeroed_run(before, PAGING_BASE, 10);
    let m1 = z.insert(slot(PAGING_BASE, 0), (IDENTITY_PDP | TABLE_FLAGS));
    let m2 = m1.insert(slot(IDENTITY_PDP, 0), identity_word(0));
    let m3 = m2.insert(slot(IDENTITY_PDP, 1), identity_word(1));
    let m4 = m3.insert(slot(IDENTITY_PDP, 2), identity_word(2));
    let m5 = m4.insert(slot(IDENTITY_PDP, 3), identity_word(3));
    let limit = paging_frame(2);
    lemma_identity_bits();
    lemma_known_flags();
    assert(z.dom() =~= before.dom());
    assert(frame_ready(before, PAGING_BASE, 0));
    assert(frame_ready(before, PAGING_BASE, 1));
    assert forall|i: u16| i < 512 implies #[trigger] entry_at(z, PAGING_BASE, i) == 0 by {
        lemma_zeroed_frame(before, 0, i);
    }
    lemma_zeroed_frame(before, 0, 0);
    lemma_zeroed_frame(before, 1, 0);
    lemma_empty_root(z, PAGING_BASE, paging_frame(1));
    assert(zeroed(z, IDENTITY_PDP) =~= z);
    assert(linked(z, m1, PAGING_BASE, 0, IDENTITY_PDP));
    assert(table_of(z, PAGING_BASE, 0, 4) == Some(PAGING_BASE));
    lemma_link(z, m1, PAGING_BASE, paging_frame(1), 0, 3, PAGING_BASE, IDENTITY_PDP, limit);
    lemma_boot_identity(m1, m2, m3, m4, m5);
    lemma_run_same(before, m5, PAGING_BASE, 10);
    assert forall|v: u64| #[trigger] leaf_of(m5, PAGING_BASE, v) == identity_leaf(v) by {
        assert(leaf_of(m1, PAGING_BASE, v) == leaf_of(z, PAGING_BASE, v));
        assert(leaf_of(z, PAGING_BASE, v) is None);
    }
}

/// The mapping of `v` once the first `count` entries of the identity
/// mapping are set.
spec fn identity_upto(count: int, v: u64) -> Option<(u64, int)> {
    if pml4_index_of(v) == 0 && pdp_index_of(v) < count {
        Some((identity_word(pdp_index_of(v) as int), 3int))
    } else {
        None
    }
}

proof fn lemma_boot_identity(
    m1: Map<u64, u64>,
    m2: Map<u64, u64>,
    m3: Map<u64, u64>,
    m4: Map<u64, u64>,
    m5: Map<u64, u64>,
)
    requires
        tables_wf(m1, PAGING_BASE, paging_frame(2)),
        table_of(m1, PAGING_BASE, 0, 3) == Some(IDENTITY_PDP),
        forall|i: u16| i < 512 ==> #[trigger] entry_at(m1, IDENTITY_PDP, i) == 0,
        forall|v: u64| #[trigger] leaf_of(m1, PAGING_BASE, v) is None,
        m2 == m1.insert(slot(IDENTITY_PDP, 0), identity_word(0)),
        m3 == m2.insert(slot(IDENTITY_PDP, 1), identity_word(1)),
        m4 == m3.insert(slot(IDENTITY_PDP, 2), identity_word(2)),
        m5 == m4.insert(slot(IDENTITY_PDP, 3), identity_word(3)),
    ensures
        tables_wf(m5, PAGING_BASE, paging_frame(2)),
        m5.dom() == m1.dom(),
        forall|v: u64| #[trigger] leaf_of(m5, PAGING_BASE, v) == identity_leaf(v),
{
    lemma_identity_bits();
    lemma_known_flags();
    lemma_identity_step(m1, m2, 0);
    lemma_identity_step(m2, m3, 1);
    lemma_identity_step(m3, m4, 2);
    lemma_identity_step(m4, m5, 3);
    assert forall|v: u64| #[trigger] leaf_of(m5, PAGING_BASE, v) == identity_leaf(v) by {
        assert(leaf_of(m5, PAGING_BASE, v) == identity_upto(4, v));
    }
}

/// The virtual address of huge page `i` of the identity mapping.
spec fn identity_addr(i: int) -> u64 {
    (0x4000_0000 * i) as u64
}

proof fn lemma_identity_step(now: Map<u64, u64>, then: Map<u64, u64>, i: int)
    requires
        0 <= i < 4,
        tables_wf(now, PAGING_BASE, paging_frame(2)),
        table_of(now, PAGING_BASE, 0, 3) == Some(IDENTITY_PDP),
        forall|k: u16| i <= k < 512 ==> #[trigger] entry_at(now, IDENTITY_PDP, k) == 0,
        forall|v: u64| #[trigger] leaf_of(now, PAGING_BASE, v) == identity_upto(i, v),
        then == now.insert(slot(IDENTITY_PDP, i as u16), identity_word(i)),
    ensures
        tables_wf(then, PAGING_BASE, paging_frame(2)),
        then.dom() == now.dom(),
        table_of(then, PAGING_BASE, 0, 3) == Some(IDENTITY_PDP),
        forall|k: u16| i + 1 <= k < 512 ==> #[trigger] entry_at(then, IDENTITY_PDP, k) == 0,
        forall|v: u64| #[trigger] leaf_of(then, PAGING_BASE, v) == identity_upto(i + 1, v),
{
    lemma_identity_bits();
    lemma_known_flags();
    let virt = identity_addr(i);
    let word = identity_word(i);
    lemma_pack_unpack(virt, HUGE_PAGE_FLAGS);
    assert(pml4_index_of(virt) == 0 && pdp_index_of(virt) == i);
    crate::walk::lemma_same_prefix(now, PAGING_BASE, virt, 0, 3);
    assert(entry_at(now, IDENTITY_PDP, i as u16) == 0);
    lemma_set_page(now, then, PAGING_BASE, paging_frame(2), virt, 3, IDENTITY_PDP, word);
    assert(table_of(then, PAGING_BASE, 0, 3) == table_of(now, PAGING_BASE, 0, 3));
    assert forall|k: u16| i + 1 <= k < 512 implies #[trigger] entry_at(then, IDENTITY_PDP, k)
        == 0 by {
        crate::walk::lemma_slot_distinct(IDENTITY_PDP, k, IDENTITY_PDP, i as u16);
        assert(entry_at(now, IDENTITY_PDP, k) == 0);
    }
    assert forall|v: u64| #[trigger] leaf_of(then, PAGING_BASE, v) == identity_upto(i + 1, v) by {
        assert(leaf_of(then, PAGING_BASE, v) == page_set(now, PAGING_BASE, virt, 3, word, v));
        assert(leaf_of(now, PAGING_BASE, v) == identity_upto(i, v));
    }
}

/// Starts the loader's page tables in the ten frames at `PAGING_BASE`: the
/// frames are zeroed, and the first 4 GiB are mapped onto themselves with
/// four huge pages. Returns the number of frames that are in use, which is
/// two: the PML4 and the PDP of the identity mapping. Without the ten
/// frames nothing is done.
pub fn start_page_tables(mem: &mut PhysMemory) -> (result: Result<usize, PagingError>)
    requires
        old(mem).wf(),
    ensures
        final(mem).wf(),
        run_backed(old(mem)@, PAGING_BASE, 10) ==> {
            &&& result == Ok::<usize, PagingError>(2)
            &&& final(mem)@ == boot_initial(old(mem)@)
            &&& boot_wf(final(mem)@, 2)
        },
        !run_backed(old(mem)@, PAGING_BASE, 10) ==> {
            &&& result == Err::<usize, PagingError>(PagingError::NoMemory)
            &&& final(mem)@ == old(mem)@
        },
{
    let ghost before = mem@;
    if !frames_backed(mem, PAGING_BASE, 10) {
        return Err(PagingError::NoMemory);
    }
    // Zeroes out the pages we'll use for paging tables
    let mut i: u64 = 0;
    proof {
        lemma_zeroed_run(before, PAGING_BASE, 0);
    }
    while i < 10
        invariant
            i <= 10,
            mem.wf(),
            run_backed(before, PAGING_BASE, 10),
            mem@ == zeroed_run(before, PAGING_BASE, i as int),
        decreases 10 - i,
    {
        proof {
            lemma_zeroed_run(before, PAGING_BASE, i as int);
            assert(frame_ready(before, PAGING_BASE, i as int));
            assert(frame_backed(mem@, paging_frame(i as int))) by {
                assert forall|k: int| 0 <= k < 512 implies mem@.dom().contains(
                    #[trigger] word_addr(paging_frame(i as int), k),
                ) by {
                    assert(before.dom().contains(word_addr(paging_frame(i as int), k)));
                }
            }
        }
        mem.zero_frame(PAGING_BASE + 4096 * i);
        i += 1;
    }
    proof {
        lemma_boot_initial(before);
        lemma_zeroed_frame(before, 0, 0);
        lemma_zeroed_frame(before, 1, 0);
        lemma_zeroed_frame(before, 1, 1);
        lemma_zeroed_frame(before, 1, 2);
        lemma_zeroed_frame(before, 1, 3);
    }

    // PML4
    mem.write(PAGING_BASE, IDENTITY_PDP | TABLE_FLAGS);

    // Identity map the first 4 GiB using four PDP huge pages
    mem.write(IDENTITY_PDP, HUGE_PAGE_FLAGS);
    mem.write(IDENTITY_PDP + 1 * 8, 0x4000_0000 | HUGE_PAGE_FLAGS);
    mem.write(IDENTITY_PDP + 2 * 8, 0x8000_0000 | HUGE_PAGE_FLAGS);
    mem.write(IDENTITY_PDP + 3 * 8, 0xc000_0000 | HUGE_PAGE_FLAGS);
    proof {
        assert(0u64 | 0x83 == 0x83) by (bit_vector);
        assert(mem@ == boot_initial(before));
    }
    // We'll use the first two frames now
    Ok(2)
}

/// Builds the loader's page tables in the ten frames at `PAGING_BASE` and
/// returns the number of those frames that are in use.
///
/// The frames are zeroed. The first 4 GiB are mapped onto themselves with
/// four huge pages. Then each page of the `kernel_size` bytes of the
/// kernel is mapped from `kernel_virt_addr` on to the frames from
/// `kernel_phys_addr` on, and the page of the entry data is mapped at
/// `entry_data_virt_addr`.
pub fn build_page_tables(
    mem: &mut PhysMemory,
    kernel_virt_addr: u64,
    kernel_phys_addr: u64,
    kernel_size: u64,
    entry_data_virt_addr: u64,
    entry_data_phys_addr: u64,
) -> (result: Result<usize, PagingError>)
    requires
        old(mem).wf(),
        kernel_virt_addr % 4096 == 0,
        kernel_phys_addr % 4096 == 0,
        entry_data_virt_addr % 4096 == 0,
        entry_data_phys_addr % 4096 == 0,
        kernel_virt_addr + 4096 * pages_of(kernel_size) <= u64::MAX + 1,
        kernel_phys_addr + 4096 * pages_of(kernel_size) <= u64::MAX + 1,
    ensures
        final(mem).wf(),
        boot_post(
            old(mem)@,
            kernel_virt_addr,
            kernel_phys_addr,
            kernel_size,
            entry_data_virt_addr,
            entry_data_phys_addr,
            result,
            final(mem)@,
        ),
        result matches Ok(used) ==> boot_wf(final(mem)@, used),
{
    proof {
        reveal(boot_post);
    }
    let next_paging_page = match start_page_tables(mem) {
        Ok(used) => used,
        Err(error) => {
            return Err(error);
        },
    };

    // Map the kernel code
    let reached = map_pages(
        mem,
        kernel_virt_addr,
        kernel_phys_addr,
        pages_for(kernel_size),
        next_paging_page,
    );
    let next_paging_page = match reached {
        Ok(used) => used,
        Err(error) => {
            return Err(error);
        },
    };

    // Map the entry data page to where the kernel expects it
    map_page_checked(mem, entry_data_virt_addr, entry_data_phys_addr, next_paging_page)
}

proof fn lemma_identity_indices(v: u64)
    by (bit_vector)
    requires
        v < 0x1_0000_0000,
    ensures
        (v >> 39) % 512 == 0,
        (v >> 30) % 512 == v >> 30,
        v >> 30 < 4,
        0x4000_0000 * (v >> 30) + v % 0x4000_0000 == v,
{
}

/// Before the kernel is mapped, the loader's hierarchy maps the first 4
/// GiB onto themselves: every address below 4 GiB translates to itself.
pub proof fn lemma_identity_mapped(before: Map<u64, u64>, v: u64)
    requires
        run_backed(before, PAGING_BASE, 10),
        v < 0x1_0000_0000,
    ensures
        translate_spec(boot_initial(before), PAGING_BASE, v) == Some(v),
{
    lemma_boot_initial(before);
    lemma_identity_indices(v);
    lemma_known_flags();
    let page = pdp_index_of(v) as int;
    lemma_pack_unpack((0x4000_0000 * page) as u64, HUGE_PAGE_FLAGS);
    assert(leaf_of(boot_initial(before), PAGING_BASE, v) == identity_leaf(v));
    assert((0x4000_0000 * page) % 0x4000_0000 == 0);
}

/// What the mapping of one page does to the mapping of `v`.
proof fn lemma_page_leaf(
    mid: Map<u64, u64>,
    used: usize,
    page: u64,
    target: u64,
    more: usize,
    after: Map<u64, u64>,
    v: u64,
)
    requires
        page_post(mid, used, page, target, Ok::<usize, PagingError>(more), after),
    ensures
        same_page(v, page) ==> leaf_of(after, PAGING_BASE, v) == Some(
            ((target | TABLE_FLAGS), 1int),
        ),
        !same_page(v, page) ==> leaf_of(after, PAGING_BASE, v) == leaf_of(mid, PAGING_BASE, v),
        same_page(v, page) ==> match leaf_of(mid, PAGING_BASE, v) {
            Some((entry, level)) => level != 1 || entry_addr(entry) == target,
            None => true,
        },
{
    reveal(page_post);
    lemma_known_flags();
    lemma_present_kept(target, TABLE_FLAGS);
    assert(leaf_of(after, PAGING_BASE, v) == leaf_set(
        mid,
        PAGING_BASE,
        page,
        (target | TABLE_FLAGS),
        v,
    ));
    if same_page(v, page) {
        crate::walk::lemma_same_page_leaf(mid, PAGING_BASE, v, page);
        assert(!conflicts(mid, page, target));
    }
}

/// Through a run of pages that were all mapped, an address of one of the
/// pages maps to the frame of that page from the moment it is mapped.
proof fn lemma_run_mapped(
    before: Map<u64, u64>,
    next: usize,
    virt: u64,
    phys: u64,
    mems: Seq<Map<u64, u64>>,
    used: Seq<usize>,
    i: int,
    k: int,
    v: u64,
)
    requires
        pages_run(before, next, virt, phys, mems, used),
        0 <= i < k < mems.len(),
        same_page(v, run_addr(virt, i)),
        phys % 4096 == 0,
        phys + 4096 * mems.len() <= MAX_PHYS_ADDR,
    ensures
        leaf_of(mems[k], PAGING_BASE, v) == Some(((run_addr(phys, i) | TABLE_FLAGS), 1int)),
    decreases k,
{
    reveal(pages_run);
    let frame = run_addr(phys, i);
    let step = k - 1;
    let page = run_addr(virt, step);
    let target = run_addr(phys, step);
    assert(page_post(
        mems[step],
        used[step],
        page,
        target,
        Ok::<usize, PagingError>(used[k]),
        mems[k],
    ));
    lemma_page_leaf(mems[step], used[step], page, target, used[k], mems[k], v);
    if step == i {
    } else {
        lemma_run_mapped(before, next, virt, phys, mems, used, i, step, v);
        if same_page(v, page) {
            lemma_known_flags();
            lemma_pack_unpack(frame, TABLE_FLAGS);
            assert(entry_addr((frame | TABLE_FLAGS)) == target);
        }
    }
}

/// Through a run of pages that were all mapped, an address of none of the
/// pages maps as before the run.
proof fn lemma_run_kept(
    before: Map<u64, u64>,
    next: usize,
    virt: u64,
    phys: u64,
    mems: Seq<Map<u64, u64>>,
    used: Seq<usize>,
    k: int,
    v: u64,
)
    requires
        pages_run(before, next, virt, phys, mems, used),
        0 <= k < mems.len(),
        forall|i: int| 0 <= i < k ==> !same_page(v, #[trigger] run_addr(virt, i)),
    ensures
        leaf_of(mems[k], PAGING_BASE, v) == leaf_of(before, PAGING_BASE, v),
    decreases k,
{
    reveal(pages_run);
    if k > 0 {
        let step = k - 1;
        let page = run_addr(virt, step);
        let target = run_addr(phys, step);
        assert(page_post(
            mems[step],
            used[step],
            page,
            target,
            Ok::<usize, PagingError>(used[k]),
            mems[k],
        ));
        lemma_page_leaf(mems[step], used[step], page, target, used[k], mems[k], v);
        lemma_run_kept(before, next, virt, phys, mems, used, step, v);
    }
}

/// A run of pages that were all mapped has its memories and numbers.
proof fn lemma_pages_run(
    before: Map<u64, u64>,
    next: usize,
    virt: u64,
    phys: u64,
    count: nat,
    used: usize,
    after: Map<u64, u64>,
) -> (run: (Seq<Map<u64, u64>>, Seq<usize>))
    requires
        pages_post(before, next, virt, phys, count, Ok::<usize, PagingError>(used), after),
    ensures
        pages_run(before, next, virt, phys, run.0, run.1),
        run.0.len() == count + 1,
        run.0[count as int] == after,
        run.1[count as int] == used,
{
    reveal(pages_post);
    reveal(pages_run);
    let (mems, useds) = choose|mems: Seq<Map<u64, u64>>, useds: Seq<usize>|
        {
            &&& #[trigger] pages_run(before, next, virt, phys, mems, useds)
            &&& mems.len() <= count + 1
            &&& after == mems.last()
            &&& if mems.len() == count + 1 {
                Ok::<usize, PagingError>(used) == Ok::<usize, PagingError>(useds.last())
            } else {
                &&& Ok::<usize, PagingError>(used) is Err
                &&& Ok::<usize, PagingError>(used) == page_outcome(
                    after,
                    useds.last(),
                    run_addr(virt, mems.len() - 1),
                    run_addr(phys, mems.len() - 1),
                )
            }
        };
    (mems, useds)
}

/// After `count` consecutive pages have been mapped to frames of physical
/// memory, every address of page `i` maps to frame `i`, present and
/// writable.
pub proof fn lemma_pages_mapped(
    before: Map<u64, u64>,
    next: usize,
    virt: u64,
    phys: u64,
    count: nat,
    used: usize,
    after: Map<u64, u64>,
    i: int,
    v: u64,
)
    requires
        pages_post(before, next, virt, phys, count, Ok::<usize, PagingError>(used), after),
        0 <= i < count,
        same_page(v, run_addr(virt, i)),
        phys % 4096 == 0,
        phys + 4096 * (count + 1) <= MAX_PHYS_ADDR,
    ensures
        leaf_of(after, PAGING_BASE, v) == Some(((run_addr(phys, i) | TABLE_FLAGS), 1int)),
        translate_spec(after, PAGING_BASE, v) == Some((run_addr(phys, i) + v % 4096) as u64),
{
    let run = lemma_pages_run(before, next, virt, phys, count, used, after);
    lemma_run_mapped(before, next, virt, phys, run.0, run.1, i, count as int, v);
    lemma_known_flags();
    lemma_pack_unpack(run_addr(phys, i), TABLE_FLAGS);
}

/// After consecutive pages have been mapped, every address outside the
/// pages maps as before.
pub proof fn lemma_pages_kept(
    before: Map<u64, u64>,
    next: usize,
    virt: u64,
    phys: u64,
    count: nat,
    used: usize,
    after: Map<u64, u64>,
    v: u64,
)
    requires
        pages_post(before, next, virt, phys, count, Ok::<usize, PagingError>(used), after),
        forall|i: int| 0 <= i < count ==> !same_page(v, #[trigger] run_addr(virt, i)),
    ensures
        leaf_of(after, PAGING_BASE, v) == leaf_of(before, PAGING_BASE, v),
        translate_spec(after, PAGING_BASE, v) == translate_spec(before, PAGING_BASE, v),
{
    let run = lemma_pages_run(before, next, virt, phys, count, used, after);
    lemma_run_kept(before, next, virt, phys, run.0, run.1, count as int, v);
}

/// An address that a huge page maps keeps its mapping when a page is
/// mapped: a page of the same indices is refused.
proof fn lemma_page_keeps_huge(
    mid: Map<u64, u64>,
    used: usize,
    page: u64,
    target: u64,
    more: usize,
    after: Map<u64, u64>,
    v: u64,
)
    requires
        page_post(mid, used, page, target, Ok::<usize, PagingError>(more), after),
        leaf_of(mid, PAGING_BASE, v) matches Some((entry, level)) && level >= 2,
    ensures
        leaf_of(after, PAGING_BASE, v) == leaf_of(mid, PAGING_BASE, v),
{
    reveal(page_post);
    assert(leaf_of(after, PAGING_BASE, v) == leaf_set(
        mid,
        PAGING_BASE,
        page,
        (target | TABLE_FLAGS),
        v,
    ));
    if same_page(v, page) {
        crate::walk::lemma_same_page_leaf(mid, PAGING_BASE, v, page);
        assert(path_huge(mid, PAGING_BASE, page));
    }
}

/// Through a run of pages that were all mapped, an address that a huge
/// page maps keeps its mapping.
proof fn lemma_run_keeps_huge(
    before: Map<u64, u64>,
    next: usize,
    virt: u64,
    phys: u64,
    mems: Seq<Map<u64, u64>>,
    used: Seq<usize>,
    k: int,
    v: u64,
)
    requires
        pages_run(before, next, virt, phys, mems, used),
        0 <= k < mems.len(),
        leaf_of(before, PAGING_BASE, v) matches Some((entry, level)) && level >= 2,
    ensures
        leaf_of(mems[k], PAGING_BASE, v) == leaf_of(before, PAGING_BASE, v),
    decreases k,
{
    reveal(pages_run);
    if k > 0 {
        let step = k - 1;
        lemma_run_keeps_huge(before, next, virt, phys, mems, used, step, v);
        assert(page_post(
            mems[step],
            used[step],
            run_addr(virt, step),
            run_addr(phys, step),
            Ok::<usize, PagingError>(used[k]),
            mems[k],
        ));
        lemma_page_keeps_huge(
            mems[step],
            used[step],
            run_addr(virt, step),
            run_addr(phys, step),
            used[k],
            mems[k],
            v,
        );
    }
}

/// The memory in the middle of building the loader's page tables that
/// succeeded: with the kernel mapped and the entry data not yet.
pub open spec fn boot_middle(
    before: Map<u64, u64>,
    kernel_virt: u64,
    kernel_phys: u64,
    kernel_size: u64,
    entry_virt: u64,
    entry_phys: u64,
    used: usize,
    after: Map<u64, u64>,
) -> (usize, Map<u64, u64>) {
    choose|reached: usize, mid: Map<u64, u64>|
        {
            &&& #[trigger] pages_post(
                boot_initial(before),
                2,
                kernel_virt,
                kernel_phys,
                pages_of(kernel_size) as nat,
                Ok::<usize, PagingError>(reached),
                mid,
            )
            &&& page_post(
                mid,
                reached,
                entry_virt,
                entry_phys,
                Ok::<usize, PagingError>(used),
                after,
            )
        }
}

/// Page tables that were built have a middle: the kernel was mapped, and
/// then the entry data.
proof fn lemma_boot_middle(
    before: Map<u64, u64>,
    kernel_virt: u64,
    kernel_phys: u64,
    kernel_size: u64,
    entry_virt: u64,
    entry_phys: u64,
    used: usize,
    after: Map<u64, u64>,
)
    requires
        run_backed(before, PAGING_BASE, 10),
        boot_post(
            before,
            kernel_virt,
            kernel_phys,
            kernel_size,
            entry_virt,
            entry_phys,
            Ok::<usize, PagingError>(used),
            after,
        ),
    ensures
        ({
            let (reached, mid) = boot_middle(
                before,
                kernel_virt,
                kernel_phys,
                kernel_size,
                entry_virt,
                entry_phys,
                used,
                after,
            );
            &&& pages_post(
                boot_initial(before),
                2,
                kernel_virt,
                kernel_phys,
                pages_of(kernel_size) as nat,
                Ok::<usize, PagingError>(reached),
                mid,
            )
            &&& page_post(
                mid,
                reached,
                entry_virt,
                entry_phys,
                Ok::<usize, PagingError>(used),
                after,
            )
        }),
{
    reveal(boot_post);
    let (reached, mid) = choose|reached: Result<usize, PagingError>, mid: Map<u64, u64>|
        {
            &&& #[trigger] pages_post(
                boot_initial(before),
                2,
                kernel_virt,
                kernel_phys,
                pages_of(kernel_size) as nat,
                reached,
                mid,
            )
            &&& match reached {
                Ok(n) => page_post(
                    mid,
                    n,
                    entry_virt,
                    entry_phys,
                    Ok::<usize, PagingError>(used),
                    after,
                ),
                Err(error) => Ok::<usize, PagingError>(used) == Err::<usize, PagingError>(error)
                    && after == mid,
            }
        };
    assert(reached is Ok);
    let n = reached->Ok_0;
    assert(pages_post(
        boot_initial(before),
        2,
        kernel_virt,
        kernel_phys,
        pages_of(kernel_size) as nat,
        Ok::<usize, PagingError>(n),
        mid,
    ));
}

/// In page tables that were built, every address of page `i` of the kernel
/// translates to its place in frame `i` of the kernel.
pub proof fn lemma_boot_maps_kernel(
    before: Map<u64, u64>,
    kernel_virt: u64,
    kernel_phys: u64,
    kernel_size: u64,
    entry_virt: u64,
    entry_phys: u64,
    used: usize,
    after: Map<u64, u64>,
    i: int,
    v: u64,
)
    requires
        run_backed(before, PAGING_BASE, 10),
        boot_post(
            before,
            kernel_virt,
            kernel_phys,
            kernel_size,
            entry_virt,
            entry_phys,
            Ok::<usize, PagingError>(used),
            after,
        ),
        0 <= i < pages_of(kernel_size),
        same_page(v, run_addr(kernel_virt, i)),
        kernel_phys % 4096 == 0,
        kernel_phys + 4096 * (pages_of(kernel_size) + 1) <= MAX_PHYS_ADDR,
    ensures
        translate_spec(after, PAGING_BASE, v) == Some((run_addr(kernel_phys, i) + v % 4096) as u64),
{
    lemma_boot_middle(
        before,
        kernel_virt,
        kernel_phys,
        kernel_size,
        entry_virt,
        entry_phys,
        used,
        after,
    );
    let (reached, mid) = boot_middle(
        before,
        kernel_virt,
        kernel_phys,
        kernel_size,
        entry_virt,
        entry_phys,
        used,
        after,
    );
    lemma_pages_mapped(
        boot_initial(before),
        2,
        kernel_virt,
        kernel_phys,
        pages_of(kernel_size) as nat,
        reached,
        mid,
        i,
        v,
    );
    lemma_page_leaf(mid, reached, entry_virt, entry_phys, used, after, v);
    lemma_known_flags();
    lemma_pack_unpack(run_addr(kernel_phys, i), TABLE_FLAGS);
}

/// In page tables that were built, every address of the page of the entry
/// data translates to its place in the frame of the entry data.
pub proof fn lemma_boot_maps_entry_data(
    before: Map<u64, u64>,
    kernel_virt: u64,
    kernel_phys: u64,
    kernel_size: u64,
    entry_virt: u64,
    entry_phys: u64,
    used: usize,
    after: Map<u64, u64>,
    v: u64,
)
    requires
        run_backed(before, PAGING_BASE, 10),
        boot_post(
            before,
            kernel_virt,
            kernel_phys,
            kernel_size,
            entry_virt,
            entry_phys,
            Ok::<usize, PagingError>(used),
            after,
        ),
        same_page(v, entry_virt),
        frame_addr(entry_phys),
    ensures
        translate_spec(after, PAGING_BASE, v) == Some((entry_phys + v % 4096) as u64),
{
    lemma_boot_middle(
        before,
        kernel_virt,
        kernel_phys,
        kernel_size,
        entry_virt,
        entry_phys,
        used,
        after,
    );
    let (reached, mid) = boot_middle(
        before,
        kernel_virt,
        kernel_phys,
        kernel_size,
        entry_virt,
        entry_phys,
        used,
        after,
    );
    lemma_page_leaf(mid, reached, entry_virt, entry_phys, used, after, v);
    lemma_known_flags();
    lemma_pack_unpack(entry_phys, TABLE_FLAGS);
}

/// In page tables that were built, the first 4 GiB are mapped onto
/// themselves: every address below 4 GiB translates to itself.
pub proof fn lemma_boot_keeps_identity(
    before: Map<u64, u64>,
    kernel_virt: u64,
    kernel_phys: u64,
    kernel_size: u64,
    entry_virt: u64,
    entry_phys: u64,
    used: usize,
    after: Map<u64, u64>,
    v: u64,
)
    requires
        run_backed(before, PAGING_BASE, 10),
        boot_post(
            before,
            kernel_virt,
            kernel_phys,
            kernel_size,
            entry_virt,
            entry_phys,
            Ok::<usize, PagingError>(used),
            after,
        ),
        v < 0x1_0000_0000,
    ensures
        translate_spec(after, PAGING_BASE, v) == Some(v),
{
    let initial = boot_initial(before);
    lemma_boot_middle(
        before,
        kernel_virt,
        kernel_phys,
        kernel_size,
        entry_virt,
        entry_phys,
        used,
        after,
    );
    let (reached, mid) = boot_middle(
        before,
        kernel_virt,
        kernel_phys,
        kernel_size,
        entry_virt,
        entry_phys,
        used,
        after,
    );
    lemma_identity_mapped(before, v);
    lemma_boot_initial(before);
    lemma_identity_indices(v);
    assert(leaf_of(initial, PAGING_BASE, v) == identity_leaf(v));
    let count = pages_of(kernel_size) as nat;
    let run = lemma_pages_run(initial, 2, kernel_virt, kernel_phys, count, reached, mid);
    lemma_run_keeps_huge(initial, 2, kernel_virt, kernel_phys, run.0, run.1, count as int, v);
    lemma_page_keeps_huge(mid, reached, entry_virt, entry_phys, used, after, v);
}

} // verus!
