//! The linear mapping of physical memory.
//!
//! The first 512 GiB of physical memory are mapped, with 2 MiB pages, at a
//! fixed offset in the higher half: one PDP and 512 PDs, hooked into slot
//! 256 of the PML4.

use vstd::prelude::*;
use crate::frame_alloc::BumpAllocator;
use crate::mapper::{frame_ready, MapError};
use crate::paging::{
    entry_addr, entry_huge, entry_present, frame_addr, lemma_known_flags, lemma_pack_unpack,
    pd_index_of, pdp_index_of, pml4_index_of, HUGE_PAGE_FLAGS, TABLE_FLAGS,
};
use crate::phys_mem::{frame_backed, word_addr, words_aligned, written, PhysMemory, MAX_PHYS_ADDR};
use crate::walk::{entry_at, leaf_of, prefix_of, slot, table_of, tables_wf, translate_spec};

verus! {

/// The virtual address at which physical address 0 is mapped.
pub const PHYS_MEM_OFFSET: u64 = 0xffff_8000_0000_0000;

/// The size of the physical mapping: 512 GiB.
pub const PHYS_MAP_SIZE: u64 = 0x80_0000_0000;

/// The slot of the PML4 that holds the physical mapping.
pub const PHYS_MAP_SLOT: u16 = 256;

/// The number of frames that the physical mapping takes: one PDP and 512
/// PDs.
pub const PHYS_MAP_FRAMES: usize = 513;

/// The number of 2 MiB pages in the physical mapping.
pub const PHYS_MAP_PAGES: u64 = 0x4_0000;

/// The virtual address at which the physical address `phys` is mapped.
pub open spec fn phys_to_virt(phys: u64) -> u64 {
    PHYS_MEM_OFFSET | phys
}

/// The virtual address at which the physical address `phys` is mapped:
/// the address through which the kernel reaches physical memory once its
/// address space is active.
pub fn alias(phys: u64) -> (virt: u64)
    ensures
        virt == phys_to_virt(phys),
{
    PHYS_MEM_OFFSET | phys
}

/// Entry `i` of the PDP of the physical mapping: a reference to PD `i` of
/// the PDs from `pds` on.
pub open spec fn pdp_word(pds: u64, i: int) -> u64 {
    ((pds + 0x1000 * i) as u64) | TABLE_FLAGS
}

/// Entry `i` of the PDs of the physical mapping, counted through all of
/// them: the huge page at `i` times 2 MiB.
pub open spec fn pd_word(i: int) -> u64 {
    ((0x20_0000 * i) as u64) | HUGE_PAGE_FLAGS
}

/// Whether the `count` frames from `base` on are frames of the memory.
pub open spec fn run_backed(mem: Map<u64, u64>, base: u64, count: int) -> bool {
    forall|n: int| 0 <= n < count ==> #[trigger] frame_ready(mem, base, n)
}

/// Whether a run of frames is there depends on the addresses that a
/// memory has, not on its words.
pub proof fn lemma_run_same(first: Map<u64, u64>, second: Map<u64, u64>, base: u64, count: int)
    requires
        first.dom() == second.dom(),
    ensures
        run_backed(first, base, count) == run_backed(second, base, count),
{
    if run_backed(first, base, count) {
        assert forall|n: int| 0 <= n < count implies #[trigger] frame_ready(second, base, n) by {
            assert(frame_ready(first, base, n));
        }
    }
    if run_backed(second, base, count) {
        assert forall|n: int| 0 <= n < count implies #[trigger] frame_ready(first, base, n) by {
            assert(frame_ready(second, base, n));
        }
    }
}

/// `before` with the first `tables` entries of the PDP at `pdp` and the
/// first `pages` entries of the PDs behind it filled in.
pub open spec fn filled(before: Map<u64, u64>, pdp: u64, tables: int, pages: int) -> Map<
    u64,
    u64,
> {
    Map::new(
        |addr: u64| before.dom().contains(addr),
        |addr: u64|
            if pdp <= addr < pdp + 8 * tables {
                pdp_word((pdp + 0x1000) as u64, (addr - pdp) / 8)
            } else if pdp + 0x1000 <= addr < pdp + 0x1000 + 8 * pages {
                pd_word((addr - pdp - 0x1000) / 8)
            } else {
                before[addr]
            },
    )
}

/// `before` with the physical mapping built in the 513 frames from `pdp`
/// on and hooked into the PML4 at `pml4`.
pub open spec fn phys_mapped(before: Map<u64, u64>, pml4: u64, pdp: u64) -> Map<u64, u64> {
    filled(before, pdp, 512, 0x4_0000).insert(slot(pml4, PHYS_MAP_SLOT), (pdp | TABLE_FLAGS))
}

proof fn lemma_fill_table(before: Map<u64, u64>, pdp: u64, i: int)
    requires
        words_aligned(before),
        0 <= i < 512,
        pdp + 0x1000 <= u64::MAX,
        before.dom().contains((pdp + 8 * i) as u64),
    ensures
        written(filled(before, pdp, i, 0), (pdp + 8 * i) as u64, pdp_word((pdp + 0x1000) as u64, i))
            == filled(before, pdp, i + 1, 0),
{
    let target = (pdp + 8 * i) as u64;
    let now = filled(before, pdp, i, 0);
    let next = written(now, target, pdp_word((pdp + 0x1000) as u64, i));
    let goal = filled(before, pdp, i + 1, 0);
    assert(now.dom().contains(target));
    assert(next.dom() =~= goal.dom());
    assert forall|a: u64| goal.dom().contains(a) implies #[trigger] next[a] == goal[a] by {
        if a != target {
            assert(next[a] == now[a]);
            assert(!(target < a < target + 8));
        }
    }
    assert(next =~= goal);
}

proof fn lemma_fill_page(before: Map<u64, u64>, pdp: u64, i: int)
    requires
        words_aligned(before),
        0 <= i < 0x4_0000,
        pdp + 0x1000 + 8 * 0x4_0000 <= u64::MAX,
        before.dom().contains((pdp + 0x1000 + 8 * i) as u64),
    ensures
        written(filled(before, pdp, 512, i), (pdp + 0x1000 + 8 * i) as u64, pd_word(i)) == filled(
            before,
            pdp,
            512,
            i + 1,
        ),
{
    let target = (pdp + 0x1000 + 8 * i) as u64;
    let now = filled(before, pdp, 512, i);
    let next = written(now, target, pd_word(i));
    let goal = filled(before, pdp, 512, i + 1);
    assert(now.dom().contains(target));
    assert(next.dom() =~= goal.dom());
    assert forall|a: u64| goal.dom().contains(a) implies #[trigger] next[a] == goal[a] by {
        if a != target {
            assert(next[a] == now[a]);
            assert(!(target < a < target + 8));
        }
    }
    assert(next =~= goal);
}

/// A frame of the memory has each of its words.
proof fn lemma_run_word(mem: Map<u64, u64>, base: u64, count: int, word: int)
    requires
        run_backed(mem, base, count),
        base % 4096 == 0,
        0 <= word < 512 * count,
    ensures
        mem.dom().contains((base + 8 * word) as u64),
        base + 8 * word < MAX_PHYS_ADDR,
{
    let n = word / 512;
    let i = word % 512;
    assert(frame_ready(mem, base, n));
    let frame = (base + 4096 * n) as u64;
    assert(mem.dom().contains(word_addr(frame, i)));
}

/// Whether the `count` frames from `base` on are frames of the memory.
pub fn frames_backed(mem: &PhysMemory, base: u64, count: u64) -> (there: bool)
    requires
        mem.wf(),
        base % 4096 == 0,
    ensures
        there == run_backed(mem@, base, count as int),
{
    let mut n: u64 = 0;
    while n < count
        invariant
            mem.wf(),
            base % 4096 == 0,
            n <= count,
            run_backed(mem@, base, n as int),
        decreases count - n,
    {
        if n >= MAX_PHYS_ADDR / 4096 || base >= MAX_PHYS_ADDR - 4096 * n || !mem.backs_frame(
            base + 4096 * n,
        ) {
            assert(!frame_ready(mem@, base, n as int));
            return false;
        }
        n += 1;
    }
    true
}

/// Maps 512 GiBs of physical memory into the hierarchy at `pml4_addr`.
///
/// The 513 frames at the cursor of `alloc` are taken and filled: the PDP
/// references the 512 PDs, and entry `i` of the PDs, counted through all
/// of them, maps the 2 MiB page at `i * 0x200000`, present, writable and
/// huge. Slot 256 of the PML4 then references the PDP. If one of the 513
/// frames is no frame of the memory, nothing is taken and nothing written.
pub fn map_physical_memory(
    mem: &mut PhysMemory,
    alloc: &mut BumpAllocator,
    pml4_addr: u64,
) -> (result: Result<(), MapError>)
    requires
        old(mem).wf(),
        tables_wf(old(mem)@, pml4_addr, old(alloc).cursor()),
    ensures
        final(mem).wf(),
        tables_wf(final(mem)@, pml4_addr, final(alloc).cursor()),
        run_backed(old(mem)@, old(alloc).cursor(), 513) ==> {
            &&& result == Ok::<(), MapError>(())
            &&& final(mem)@ == phys_mapped(old(mem)@, pml4_addr, old(alloc).cursor())
            &&& final(alloc).cursor() == old(alloc).cursor() + 513 * 4096
        },
        !run_backed(old(mem)@, old(alloc).cursor(), 513) ==> {
            &&& result == Err::<(), MapError>(MapError::OutOfFrames)
            &&& final(mem)@ == old(mem)@
            &&& final(alloc).cursor() == old(alloc).cursor()
        },
{
    let ghost before = mem@;
    let pdp_phys_addr = alloc.peek();
    if !frames_backed(mem, pdp_phys_addr, 513) {
        return Err(MapError::OutOfFrames);
    }
    proof {
        lemma_run_word(before, pdp_phys_addr, 513, 512 * 513 - 1);
        mem.lemma_words_aligned();
        assert(table_of(before, pml4_addr, 0, 4) == Some(pml4_addr));
    }
    match alloc.allocate(513) {
        Ok(_) => {},
        Err(_) => {
            return Err(MapError::OutOfFrames);
        },
    }
    let pds_phys_addr = pdp_phys_addr + 0x1000;
    assert(mem@ =~= filled(before, pdp_phys_addr, 0, 0));

    // Add the PDs as entries in the PDP
    let mut i: u64 = 0;
    while i < 512
        invariant
            mem.wf(),
            i <= 512,
            words_aligned(before),
            pdp_phys_addr % 4096 == 0,
            pds_phys_addr == pdp_phys_addr + 0x1000,
            run_backed(before, pdp_phys_addr, 513),
            pdp_phys_addr + 513 * 4096 <= MAX_PHYS_ADDR,
            mem@ == filled(before, pdp_phys_addr, i as int, 0),
        decreases 512 - i,
    {
        proof {
            lemma_run_word(before, pdp_phys_addr, 513, i as int);
            lemma_fill_table(before, pdp_phys_addr, i as int);
        }
        mem.write(pdp_phys_addr + 0x8 * i, (pds_phys_addr + 0x1000 * i) | TABLE_FLAGS);
        i += 1;
    }

    // Map the first 512 GiB of physical memory with huge pages in the PDs
    let mut i: u64 = 0;
    while i < 512 * 512
        invariant
            mem.wf(),
            i <= 0x4_0000,
            words_aligned(before),
            pdp_phys_addr % 4096 == 0,
            pds_phys_addr == pdp_phys_addr + 0x1000,
            run_backed(before, pdp_phys_addr, 513),
            pdp_phys_addr + 513 * 4096 <= MAX_PHYS_ADDR,
            mem@ == filled(before, pdp_phys_addr, 512, i as int),
        decreases 0x4_0000 - i,
    {
        proof {
            lemma_run_word(before, pdp_phys_addr, 513, 512 + i as int);
            lemma_fill_page(before, pdp_phys_addr, i as int);
        }
        mem.write(pds_phys_addr + 0x8 * i, (0x20_0000 * i) | HUGE_PAGE_FLAGS);
        i += 1;
    }

    // Reference the PDP in the PML4
    proof {
        assert(mem@.dom() =~= before.dom());
        assert(before.dom().contains(word_addr(pml4_addr, 256)));
    }
    mem.write(pml4_addr + 0x8 * 256, pdp_phys_addr | TABLE_FLAGS);
    proof {
        lemma_phys_mapped_wf(before, pml4_addr, pdp_phys_addr);
    }
    Ok(())
}

/// How the indices and the page offset of an address of the physical
/// mapping follow from the physical address.
proof fn lemma_phys_map_indices(phys: u64)
    by (bit_vector)
    requires
        phys < 0x80_0000_0000,
    ensures
        ((0xffff_8000_0000_0000 | phys) >> 39) % 512 == 256,
        ((0xffff_8000_0000_0000 | phys) >> 30) % 512 == phys >> 30,
        ((0xffff_8000_0000_0000 | phys) >> 21) % 512 == (phys >> 21) % 512,
        (0xffff_8000_0000_0000 | phys) % 0x20_0000 == phys % 0x20_0000,
        phys >> 30 < 512,
        phys >> 21 < 0x4_0000,
        (phys >> 30) * 512 + (phys >> 21) % 512 == phys >> 21,
        0x20_0000 * (phys >> 21) + phys % 0x20_0000 == phys,
{
}

/// Whether `table` is one of the PDs of the physical mapping behind the PDP
/// at `pdp`.
spec fn is_pd(pdp: u64, table: u64) -> bool {
    pdp + 0x1000 <= table < pdp + 513 * 0x1000
}

/// How the entries of the tables read once the physical mapping is built.
proof fn lemma_phys_mapped_entries(
    before: Map<u64, u64>,
    pml4: u64,
    pdp: u64,
    table: u64,
    i: u16,
)
    requires
        frame_addr(pml4),
        frame_backed(before, pml4),
        pml4 < pdp,
        pdp % 4096 == 0,
        run_backed(before, pdp, 513),
        frame_addr(table),
        i < 512,
    ensures
        entry_at(phys_mapped(before, pml4, pdp), table, i) == if table == pml4 && i == 256 {
            (pdp | TABLE_FLAGS)
        } else if table == pdp {
            pdp_word((pdp + 0x1000) as u64, i as int)
        } else if is_pd(pdp, table) {
            pd_word((table - pdp - 0x1000) / 8 + i)
        } else {
            entry_at(before, table, i)
        },
        phys_mapped(before, pml4, pdp).dom() == before.dom(),
{
    let after = phys_mapped(before, pml4, pdp);
    assert(before.dom().contains(word_addr(pml4, 256)));
    assert(after.dom() =~= before.dom());
    lemma_run_word(before, pdp, 513, 512 * 513 - 1);
    crate::walk::lemma_slot_distinct(table, i, pml4, 256);
    if table == pdp {
        lemma_run_word(before, pdp, 513, i as int);
    } else if is_pd(pdp, table) {
        lemma_run_word(before, pdp, 513, 512 + (table - pdp - 0x1000) / 8 + i);
    }
}

/// The entries of the physical mapping unpacked.
proof fn lemma_phys_map_words(pdp: u64, j: int, i: int)
    requires
        pdp % 4096 == 0,
        pdp + 513 * 4096 <= MAX_PHYS_ADDR,
        0 <= j < 512,
        0 <= i < 0x4_0000,
    ensures
        entry_present(pdp | TABLE_FLAGS),
        !entry_huge(pdp | TABLE_FLAGS),
        entry_addr(pdp | TABLE_FLAGS) == pdp,
        entry_present(pdp_word((pdp + 0x1000) as u64, j)),
        !entry_huge(pdp_word((pdp + 0x1000) as u64, j)),
        entry_addr(pdp_word((pdp + 0x1000) as u64, j)) == pdp + 0x1000 + 0x1000 * j,
        entry_present(pd_word(i)),
        entry_huge(pd_word(i)),
        entry_addr(pd_word(i)) == 0x20_0000 * i,
{
    lemma_known_flags();
    lemma_pack_unpack(pdp, TABLE_FLAGS);
    lemma_pack_unpack((pdp + 0x1000 + 0x1000 * j) as u64, TABLE_FLAGS);
    lemma_pack_unpack((0x20_0000 * i) as u64, HUGE_PAGE_FLAGS);
}

/// What the walk of `v` goes through once the physical mapping is built.
pub open spec fn phys_mapped_table_of(
    before: Map<u64, u64>,
    pml4: u64,
    pdp: u64,
    v: u64,
    l: int,
) -> Option<u64> {
    if pml4_index_of(v) != 256 || l == 4 {
        table_of(before, pml4, v, l)
    } else if l == 3 {
        Some(pdp)
    } else if l == 2 {
        Some((pdp + 0x1000 + 0x1000 * pdp_index_of(v)) as u64)
    } else {
        None
    }
}

/// The mapping of `v` once the physical mapping is built: the 2 MiB page of
/// the address for those that go through slot 256 of the PML4, and what it
/// was for all others.
pub open spec fn phys_mapped_leaf_of(before: Map<u64, u64>, pml4: u64, v: u64) -> Option<
    (u64, int),
> {
    if pml4_index_of(v) == 256 {
        Some((pd_word(512 * pdp_index_of(v) + pd_index_of(v)), 2int))
    } else {
        leaf_of(before, pml4, v)
    }
}

proof fn lemma_phys_mapped_walk(before: Map<u64, u64>, pml4: u64, pdp: u64, v: u64)
    requires
        tables_wf(before, pml4, pdp),
        run_backed(before, pdp, 513),
        pdp + 513 * 4096 <= MAX_PHYS_ADDR,
    ensures
        forall|l: int|
            1 <= l <= 4 ==> #[trigger] table_of(phys_mapped(before, pml4, pdp), pml4, v, l)
                == phys_mapped_table_of(before, pml4, pdp, v, l),
        pml4_index_of(v) != 256 ==> leaf_of(phys_mapped(before, pml4, pdp), pml4, v) == leaf_of(
            before,
            pml4,
            v,
        ),
        pml4_index_of(v) == 256 ==> leaf_of(phys_mapped(before, pml4, pdp), pml4, v) == Some(
            (pd_word(512 * pdp_index_of(v) + pd_index_of(v)), 2int),
        ),
{
    let after = phys_mapped(before, pml4, pdp);
    let i4 = pml4_index_of(v);
    let i3 = pdp_index_of(v);
    let i2 = pd_index_of(v);
    let i1 = crate::paging::pt_index_of(v);
    assert(table_of(before, pml4, v, 4) == Some(pml4));
    lemma_phys_mapped_entries(before, pml4, pdp, pml4, i4);
    lemma_phys_map_words(pdp, i3 as int, 512 * i3 + i2);
    if i4 == 256 {
        let pd = (pdp + 0x1000 + 0x1000 * i3) as u64;
        lemma_phys_mapped_entries(before, pml4, pdp, pdp, i3);
        assert(table_of(after, pml4, v, 3) == Some(pdp));
        lemma_phys_mapped_entries(before, pml4, pdp, pd, i2);
        assert((pd - pdp - 0x1000) / 8 + i2 == 512 * i3 + i2);
        assert(table_of(after, pml4, v, 2) == Some(pd));
        assert(table_of(after, pml4, v, 1) is None);
    } else {
        let t3 = table_of(before, pml4, v, 3);
        assert(table_of(after, pml4, v, 3) == t3);
        if t3 is Some {
            lemma_phys_mapped_entries(before, pml4, pdp, t3->0, i3);
        }
        let t2 = table_of(before, pml4, v, 2);
        assert(table_of(after, pml4, v, 2) == t2);
        if t2 is Some {
            lemma_phys_mapped_entries(before, pml4, pdp, t2->0, i2);
        }
        let t1 = table_of(before, pml4, v, 1);
        assert(table_of(after, pml4, v, 1) == t1);
        if t1 is Some {
            lemma_phys_mapped_entries(before, pml4, pdp, t1->0, i1);
        }
    }
}

/// Building the physical mapping in a well-formed hierarchy keeps it well
/// formed, and changes no translation but those of the addresses that go
/// through slot 256 of the PML4, which map to 2 MiB pages.
pub proof fn lemma_phys_mapped_wf(before: Map<u64, u64>, pml4: u64, pdp: u64)
    requires
        tables_wf(before, pml4, pdp),
        run_backed(before, pdp, 513),
        pdp + 513 * 4096 <= MAX_PHYS_ADDR,
    ensures
        tables_wf(phys_mapped(before, pml4, pdp), pml4, (pdp + 513 * 4096) as u64),
        phys_mapped(before, pml4, pdp).dom() == before.dom(),
        forall|v: u64, l: int|
            1 <= l <= 4 ==> #[trigger] table_of(phys_mapped(before, pml4, pdp), pml4, v, l)
                == phys_mapped_table_of(before, pml4, pdp, v, l),
        forall|v: u64| #[trigger]
            leaf_of(phys_mapped(before, pml4, pdp), pml4, v) == phys_mapped_leaf_of(
                before,
                pml4,
                v,
            ),
{
    let after = phys_mapped(before, pml4, pdp);
    lemma_phys_mapped_tables(before, pml4, pdp);
    lemma_phys_mapped_shape(before, after, pml4, pdp);
}

proof fn lemma_phys_mapped_tables(before: Map<u64, u64>, pml4: u64, pdp: u64)
    requires
        tables_wf(before, pml4, pdp),
        run_backed(before, pdp, 513),
        pdp + 513 * 4096 <= MAX_PHYS_ADDR,
    ensures
        phys_mapped(before, pml4, pdp).dom() == before.dom(),
        forall|v: u64, l: int|
            1 <= l <= 4 ==> #[trigger] table_of(phys_mapped(before, pml4, pdp), pml4, v, l)
                == phys_mapped_table_of(before, pml4, pdp, v, l),
        forall|v: u64| #[trigger]
            leaf_of(phys_mapped(before, pml4, pdp), pml4, v) == phys_mapped_leaf_of(
                before,
                pml4,
                v,
            ),
{
    let after = phys_mapped(before, pml4, pdp);
    assert(table_of(before, pml4, 0, 4) == Some(pml4));
    lemma_phys_mapped_entries(before, pml4, pdp, pml4, 0);
    assert forall|v: u64, l: int| 1 <= l <= 4 implies #[trigger] table_of(after, pml4, v, l)
        == phys_mapped_table_of(before, pml4, pdp, v, l) by {
        lemma_phys_mapped_walk(before, pml4, pdp, v);
    }
    assert forall|v: u64| #[trigger]
        leaf_of(after, pml4, v) == phys_mapped_leaf_of(before, pml4, v) by {
        lemma_phys_mapped_walk(before, pml4, pdp, v);
    }
}

proof fn lemma_phys_mapped_shape(
    before: Map<u64, u64>,
    after: Map<u64, u64>,
    pml4: u64,
    pdp: u64,
)
    requires
        tables_wf(before, pml4, pdp),
        run_backed(before, pdp, 513),
        pdp + 513 * 4096 <= MAX_PHYS_ADDR,
        after.dom() == before.dom(),
        forall|v: u64, l: int|
            1 <= l <= 4 ==> #[trigger] table_of(after, pml4, v, l) == phys_mapped_table_of(
                before,
                pml4,
                pdp,
                v,
                l,
            ),
    ensures
        tables_wf(after, pml4, (pdp + 513 * 4096) as u64),
{
    let limit = (pdp + 513 * 4096) as u64;
    assert forall|v: u64, l: int| 1 <= l <= 4 implies match #[trigger] table_of(
        after,
        pml4,
        v,
        l,
    ) {
        Some(table) => frame_addr(table) && frame_backed(after, table) && table < limit,
        None => true,
    } by {
        lemma_phys_mapped_table_ok(before, after, pml4, pdp, v, l);
    }
    assert forall|a: u64, i: int, b: u64, j: int|
        1 <= i <= 4 && 1 <= j <= 4 && table_of(after, pml4, a, i) is Some && #[trigger] table_of(
            after,
            pml4,
            a,
            i,
        ) == #[trigger] table_of(after, pml4, b, j) implies i == j && prefix_of(a, i)
        == prefix_of(b, j) by {
        lemma_phys_mapped_tree(before, after, pml4, pdp, a, i, b, j);
    }
}

proof fn lemma_phys_mapped_table_ok(
    before: Map<u64, u64>,
    after: Map<u64, u64>,
    pml4: u64,
    pdp: u64,
    v: u64,
    l: int,
)
    requires
        tables_wf(before, pml4, pdp),
        run_backed(before, pdp, 513),
        pdp + 513 * 4096 <= MAX_PHYS_ADDR,
        after.dom() == before.dom(),
        1 <= l <= 4,
        table_of(after, pml4, v, l) == phys_mapped_table_of(before, pml4, pdp, v, l),
    ensures
        match table_of(after, pml4, v, l) {
            Some(table) => frame_addr(table) && frame_backed(after, table) && table < pdp + 513
                * 4096,
            None => true,
        },
{
    let old_table = table_of(before, pml4, v, l);
    assert(frame_ready(before, pdp, 0));
    assert(frame_ready(before, pdp, 1 + pdp_index_of(v)));
    if table_of(after, pml4, v, l) is Some {
        let table = table_of(after, pml4, v, l)->0;
        assert(frame_backed(before, table));
        assert forall|i: int| 0 <= i < 512 implies after.dom().contains(
            #[trigger] word_addr(table, i),
        ) by {
            assert(before.dom().contains(word_addr(table, i)));
        }
    }
}

proof fn lemma_phys_mapped_tree(
    before: Map<u64, u64>,
    after: Map<u64, u64>,
    pml4: u64,
    pdp: u64,
    a: u64,
    i: int,
    b: u64,
    j: int,
)
    requires
        tables_wf(before, pml4, pdp),
        pdp + 513 * 4096 <= MAX_PHYS_ADDR,
        1 <= i <= 4,
        1 <= j <= 4,
        table_of(after, pml4, a, i) == phys_mapped_table_of(before, pml4, pdp, a, i),
        table_of(after, pml4, b, j) == phys_mapped_table_of(before, pml4, pdp, b, j),
        table_of(after, pml4, a, i) is Some,
        table_of(after, pml4, a, i) == table_of(after, pml4, b, j),
    ensures
        i == j,
        prefix_of(a, i) == prefix_of(b, j),
{
    let ta = table_of(before, pml4, a, i);
    let tb = table_of(before, pml4, b, j);
    let table = table_of(after, pml4, a, i)->0;
    if table < pdp {
        assert(ta == Some(table));
        assert(tb == Some(table));
    } else if table == pdp {
    } else {
        assert(0x1000 * pdp_index_of(a) == 0x1000 * pdp_index_of(b));
    }
}

/// The 2 MiB page that the physical mapping holds for the virtual address
/// of a physical address gives that address back.
pub proof fn lemma_phys_page_address(phys: u64)
    requires
        phys < PHYS_MAP_SIZE,
    ensures
        pml4_index_of(phys_to_virt(phys)) == 256,
        crate::walk::page_address(
            pd_word(512 * pdp_index_of(phys_to_virt(phys)) + pd_index_of(phys_to_virt(phys))),
            2,
            phys_to_virt(phys),
        ) == phys,
{
    let v = phys_to_virt(phys);
    lemma_phys_map_indices(phys);
    let page = 512 * pdp_index_of(v) + pd_index_of(v);
    assert(page == phys >> 21);
    lemma_phys_map_words(0, 0, page);
    assert(entry_addr(pd_word(page)) == 0x20_0000 * page);
    assert((0x20_0000 * page) % 0x20_0000 == 0);
}

/// Once the physical mapping is built, every physical address below 512
/// GiB is found at the fixed offset: the virtual address `PHYS_MEM_OFFSET |
/// phys` translates to `phys`.
pub proof fn lemma_physical_memory_mapped(before: Map<u64, u64>, pml4: u64, pdp: u64, phys: u64)
    requires
        tables_wf(before, pml4, pdp),
        run_backed(before, pdp, 513),
        pdp + 513 * 4096 <= MAX_PHYS_ADDR,
        phys < PHYS_MAP_SIZE,
    ensures
        translate_spec(phys_mapped(before, pml4, pdp), pml4, phys_to_virt(phys)) == Some(phys),
{
    let v = phys_to_virt(phys);
    lemma_phys_page_address(phys);
    lemma_phys_mapped_walk(before, pml4, pdp, v);
}

} // verus!
