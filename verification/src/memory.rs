//! The kernel's own address space.
//!
//! On entry the kernel runs on the loader's page tables. It builds a
//! hierarchy of its own: a fresh PML4, the linear mapping of physical
//! memory, the loader's last PML4 entry (the kernel image and its stack),
//! and a heap.
//!
//! ```text
//!        Lower Half
//! (0)    0x0000_0000_0000_0000 - 0x0000_7FFF_FFFF_FFFF    (128 TiB)
//!
//!        Higher Half
//! (1)    0xFFFF_8000_0000_0000 - 0xFFFF_807F_FFFF_FFFF    (512 GiB)
//! (2)    0xFFFF_8080_0000_0000 - 0xFFFF_FF7F_FFFF_FFFF    (127 TiB)
//! (3)    0xFFFF_FF80_0000_0000 - 0xFFFF_FFFF_FFFF_FFFF    (512 GiB)
//!
//! (0)    Free
//! (1)    Physical Memory Mapping
//! (2)    Free
//! (3)    Kernel                       (Last entry of PML4)
//! ```

use vstd::prelude::*;
use crate::frame_alloc::{BumpAllocator, FRAME_ALLOCATOR_START};
use crate::heap::{HEAP_BASE, HEAP_FRAMES};
use crate::mapper::{
    frame_ready, is_table, lemma_mapped_entry, lemma_touched_twice, mapped, missing_tables,
    only_tables_touched, others_kept, path_huge, table_on, tables_created, tables_kept, MapError,
    Mapper,
};
use crate::paging::{
    entry_present, frame_addr, lemma_known_flags, lemma_pack_unpack, pd_index_of, pdp_index_of,
    pml4_index_of, pt_index_of, PageTable, TABLE_FLAGS,
};
use crate::phys_map::{
    lemma_phys_mapped_wf, lemma_run_same, map_physical_memory, pd_word, phys_mapped, phys_to_virt,
    run_backed, PHYS_MAP_SIZE,
};
use crate::phys_mem::{frame_backed, frame_of, word_addr, zeroed, PhysMemory, MAX_PHYS_ADDR};
use crate::walk::{
    entry_at, grafted_leaf_of, leaf_of, leaf_set, lemma_empty_root, lemma_graft, lemma_limit_grows,
    lemma_same_below, lemma_same_prefix, lemma_set_entry, pt_of, same_below, slot, table_empty,
    table_of, tables_above, tables_wf, translate_spec,
};

verus! {

/// The slot of the PML4 that holds the kernel image, its stack and the
/// heap: the last.
pub const KERNEL_SLOT: u16 = 511;

/// The virtual address of page `i` of the heap.
pub open spec fn heap_page_addr(i: int) -> u64 {
    (HEAP_BASE + 0x1000 * i) as u64
}

/// The number of the heap page that `v` lies in, if it lies in one of the
/// first `count`.
pub open spec fn heap_page(v: u64, count: int) -> Option<int> {
    if pml4_index_of(v) == 511 && pdp_index_of(v) == 0 && pd_index_of(v) == 0 && pt_index_of(v)
        < count {
        Some(pt_index_of(v) as int)
    } else {
        None
    }
}

/// The entry that maps page `i` of a heap whose frames start at `heap`.
pub open spec fn heap_word(heap: u64, i: int) -> u64 {
    ((heap + 0x1000 * i) as u64) | TABLE_FLAGS
}

/// The mapping of `v` once the first `count` pages of the heap are mapped
/// to the frames from `heap` on.
pub open spec fn heap_leaf(
    before: Map<u64, u64>,
    root: u64,
    heap: u64,
    count: int,
    v: u64,
) -> Option<(u64, int)> {
    match heap_page(v, count) {
        Some(i) => Some((heap_word(heap, i), 1int)),
        None => leaf_of(before, root, v),
    }
}

/// The four 9-bit slices of the address of page `i` of the heap.
proof fn lemma_heap_bits(v: u64, i: u64)
    by (bit_vector)
    requires
        i < 512,
        v == 0xffff_ff80_0000_0000 + 0x1000 * i,
    ensures
        (v >> 39) % 512 == 511,
        (v >> 30) % 512 == 0,
        (v >> 21) % 512 == 0,
        (v >> 12) % 512 == i,
{
}

/// The indices of the pages of the heap.
proof fn lemma_heap_indices(i: u64)
    requires
        i < 512,
    ensures
        pml4_index_of(heap_page_addr(i as int)) == 511,
        pdp_index_of(heap_page_addr(i as int)) == 0,
        pd_index_of(heap_page_addr(i as int)) == 0,
        pt_index_of(heap_page_addr(i as int)) == i,
        heap_page_addr(0) == HEAP_BASE,
{
    lemma_heap_bits(heap_page_addr(i as int), i);
}

/// Whether mapping the heap succeeds in the hierarchy at `root` when the
/// allocator stands at `cursor`: the 20 frames of the heap end inside the
/// address space, no huge page is in the way, and the tables that the first
/// page lacks can be created behind the frames of the heap.
pub open spec fn heap_fits(mem: Map<u64, u64>, root: u64, cursor: u64) -> bool {
    let wanted = missing_tables(mem, root, HEAP_BASE);
    &&& cursor + 20 * 4096 <= u64::MAX
    &&& !path_huge(mem, root, HEAP_BASE)
    &&& tables_created(mem, (cursor + 20 * 4096) as u64, wanted) == wanted
}

/// The error with which mapping the heap fails.
pub open spec fn heap_error(mem: Map<u64, u64>, root: u64, cursor: u64) -> MapError {
    if cursor + 20 * 4096 <= u64::MAX && path_huge(mem, root, HEAP_BASE) {
        MapError::HugePage
    } else {
        MapError::OutOfFrames
    }
}

/// The memory `mem` with the entries of pages 1 up to `count - 1` of a heap
/// whose frames start at `heap` written to the PT at `pt`.
pub open spec fn heap_filled(mem: Map<u64, u64>, pt: u64, heap: u64, count: nat) -> Map<u64, u64>
    decreases count,
{
    if count <= 1 {
        mem
    } else {
        heap_filled(mem, pt, heap, (count - 1) as nat).insert(
            slot(pt, (count - 1) as u16),
            heap_word(heap, count - 1),
        )
    }
}

/// The memory once the heap has been mapped in the hierarchy at `root`
/// with an allocator at `cursor`, word for word. The first page is mapped
/// as `mapped` says, with tables from behind the 20 frames of the heap;
/// if that succeeds the entries of the other 19 pages are written to the
/// same PT. Where the allocator cannot give 20 frames nothing is written.
pub open spec fn heap_words(before: Map<u64, u64>, root: u64, cursor: u64) -> Map<u64, u64> {
    if cursor + 20 * 4096 > u64::MAX {
        before
    } else {
        let first = (cursor + 20 * 4096) as u64;
        let one = mapped(before, first, root, HEAP_BASE, heap_word(cursor, 0));
        if heap_fits(before, root, cursor) {
            heap_filled(one, table_on(before, first, root, HEAP_BASE, 1), cursor, 20)
        } else {
            one
        }
    }
}

/// What mapping the heap does to a well-formed hierarchy at `root` whose
/// allocator stands at `cursor`. If it fits, the 20 frames at the cursor
/// become the heap, mapped present and writable from `HEAP_BASE` on, with
/// the tables that were missing created behind them, and every other
/// address maps as before; the frames of the heap and all memory outside
/// the page tables are left as they are. If it does not fit, every address
/// maps as before. Either way the memory afterwards is `heap_words`, word
/// for word.
pub open spec fn heap_post(
    before: Map<u64, u64>,
    root: u64,
    cursor: u64,
    result: Result<u64, MapError>,
    after: Map<u64, u64>,
    new_cursor: u64,
) -> bool {
    &&& after == heap_words(before, root, cursor)
    &&& after.dom() == before.dom()
    &&& tables_kept(before, after, root)
    &&& if heap_fits(before, root, cursor) {
        &&& result == Ok::<u64, MapError>(cursor)
        &&& new_cursor == cursor + 4096 * (20 + missing_tables(before, root, HEAP_BASE))
        &&& tables_wf(after, root, new_cursor)
        &&& only_tables_touched(before, after, root, (cursor + 20 * 4096) as u64, new_cursor)
        &&& forall|v: u64| #[trigger]
            leaf_of(after, root, v) == heap_leaf(before, root, cursor, 20, v)
    } else {
        &&& result == Err::<u64, MapError>(heap_error(before, root, cursor))
        &&& forall|v: u64| #[trigger] leaf_of(after, root, v) == leaf_of(before, root, v)
    }
}

/// Allocates and maps 80 KiB of memory for the kernel heap: 20 frames from
/// the allocator, mapped present and writable from `HEAP_BASE` on. Returns
/// the physical address of the first frame. If it fails, every address
/// translates as before.
pub fn map_heap(mapper: &Mapper, mem: &mut PhysMemory, alloc: &mut BumpAllocator) -> (result:
    Result<u64, MapError>)
    requires
        mapper.wf(old(mem), old(alloc)),
    ensures
        final(mem).wf(),
        heap_post(
            old(mem)@,
            mapper.root(),
            old(alloc).cursor(),
            result,
            final(mem)@,
            final(alloc).cursor(),
        ),
{
    let ghost before = mem@;
    let ghost root = mapper.root();
    let ghost cursor = alloc.cursor();
    let heap_phys_addr = match alloc.allocate(HEAP_FRAMES) {
        Ok(addr) => addr,
        Err(_) => {
            return Err(MapError::OutOfFrames);
        },
    };
    let ghost first = alloc.cursor();
    proof {
        lemma_limit_grows(before, root, cursor, first);
        lemma_heap_indices(0);
    }
    match mapper.map(mem, alloc, HEAP_BASE, heap_phys_addr, TABLE_FLAGS) {
        Ok(()) => {},
        Err(error) => {
            return Err(error);
        },
    }
    let ghost limit = alloc.cursor();
    let ghost one = mem@;
    let ghost pt = table_on(before, first, root, HEAP_BASE, 1);
    proof {
        assert(heap_filled(one, pt, heap_phys_addr, 1) == one);
        assert forall|v: u64| #[trigger]
            leaf_of(mem@, root, v) == heap_leaf(before, root, heap_phys_addr, 1, v) by {
            assert(leaf_of(mem@, root, v) == leaf_set(
                before,
                root,
                HEAP_BASE,
                (heap_phys_addr | TABLE_FLAGS),
                v,
            ));
            lemma_known_flags();
            crate::paging::lemma_present_kept(heap_phys_addr, TABLE_FLAGS);
        }
    }
    let mut i: u64 = 1;
    while i < 20
        invariant
            1 <= i <= 20,
            mem.wf(),
            mem@.dom() == before.dom(),
            alloc.cursor() == limit,
            root == mapper.root(),
            heap_phys_addr == cursor,
            first == cursor + 20 * 4096,
            cursor % 4096 == 0,
            cursor + 20 * 4096 <= u64::MAX,
            tables_wf(mem@, root, limit),
            tables_kept(before, mem@, root),
            first <= limit,
            only_tables_touched(before, mem@, root, first, limit),
            pt_of(mem@, root, HEAP_BASE) == Some(pt),
            one == mapped(before, first, root, HEAP_BASE, heap_word(cursor, 0)),
            pt == table_on(before, first, root, HEAP_BASE, 1),
            heap_fits(before, root, cursor),
            mem@ == heap_filled(one, pt, heap_phys_addr, i as nat),
            forall|v: u64| #[trigger]
                leaf_of(mem@, root, v) == heap_leaf(before, root, heap_phys_addr, i as int, v),
        decreases 20 - i,
    {
        let ghost now = mem@;
        proof {
            lemma_heap_indices(0);
            lemma_heap_indices(i);
            lemma_heap_page_ready(now, root, i as int);
        }
        match mapper.map(
            mem,
            alloc,
            HEAP_BASE + 0x1000 * i,
            heap_phys_addr + 0x1000 * i,
            TABLE_FLAGS,
        ) {
            Ok(()) => {},
            Err(error) => {
                return Err(error);
            },
        }
        proof {
            let virt = heap_page_addr(i as int);
            let word = heap_word(heap_phys_addr, i as int);
            lemma_known_flags();
            crate::paging::lemma_present_kept((heap_phys_addr + 0x1000 * i) as u64, TABLE_FLAGS);
            lemma_same_prefix(mem@, root, virt, HEAP_BASE, 1);
            lemma_heap_word_set(now, limit, root, i as int, pt, word, mem@);
            assert(mem@ == heap_filled(one, pt, heap_phys_addr, (i + 1) as nat));
            assert forall|v: u64| #[trigger]
                leaf_of(mem@, root, v) == heap_leaf(
                    before,
                    root,
                    heap_phys_addr,
                    i as int + 1,
                    v,
                ) by {
                assert(leaf_of(mem@, root, v) == leaf_set(now, root, virt, word, v));
                assert(leaf_of(now, root, v) == heap_leaf(
                    before,
                    root,
                    heap_phys_addr,
                    i as int,
                    v,
                ));
            }
            assert forall|v: u64, l: int|
                1 <= l <= 4 && table_of(before, root, v, l) is Some implies #[trigger] table_of(
                    mem@,
                    root,
                    v,
                    l,
                ) == table_of(before, root, v, l) by {
                assert(table_of(now, root, v, l) == table_of(before, root, v, l));
            }
            lemma_touched_twice(before, now, mem@, root, first, limit, limit);
        }
        i += 1;
    }
    Ok(heap_phys_addr)
}

/// Once the PT of the heap is there, mapping a page of the heap writes its
/// entry to that PT and nothing else.
proof fn lemma_heap_word_set(
    now: Map<u64, u64>,
    limit: u64,
    root: u64,
    i: int,
    pt: u64,
    word: u64,
    after: Map<u64, u64>,
)
    requires
        0 <= i < 512,
        pt_of(now, root, HEAP_BASE) == Some(pt),
        after == mapped(now, limit, root, heap_page_addr(i), word),
    ensures
        after == now.insert(slot(pt, i as u16), word),
        table_on(now, limit, root, heap_page_addr(i), 1) == pt,
{
    lemma_heap_indices(0);
    lemma_heap_indices(i as u64);
    lemma_heap_page_ready(now, root, i);
    lemma_same_prefix(now, root, heap_page_addr(i), HEAP_BASE, 1);
    assert(table_of(now, root, heap_page_addr(i), 1) == Some(pt));
    assert(tables_created(now, limit, 0) == 0);
    assert(crate::mapper::tables_linked(now, limit, root, heap_page_addr(i), 0) == now);
}

/// Once the PT of the heap is there, mapping a page of the heap needs no
/// table and meets no huge page.
proof fn lemma_heap_page_ready(mem: Map<u64, u64>, root: u64, i: int)
    requires
        0 <= i < 512,
        pt_of(mem, root, HEAP_BASE) is Some,
        pml4_index_of(HEAP_BASE) == 511,
        pdp_index_of(HEAP_BASE) == 0,
        pd_index_of(HEAP_BASE) == 0,
        pml4_index_of(heap_page_addr(i)) == 511,
        pdp_index_of(heap_page_addr(i)) == 0,
        pd_index_of(heap_page_addr(i)) == 0,
    ensures
        !path_huge(mem, root, heap_page_addr(i)),
        missing_tables(mem, root, heap_page_addr(i)) == 0,
{
    lemma_same_prefix(mem, root, heap_page_addr(i), HEAP_BASE, 1);
    lemma_same_prefix(mem, root, heap_page_addr(i), HEAP_BASE, 2);
    lemma_same_prefix(mem, root, heap_page_addr(i), HEAP_BASE, 3);
    assert(table_of(mem, root, HEAP_BASE, 1) is Some);
}

/// Where the kernel's address space lies in physical memory.
#[derive(Clone, Copy, Debug, PartialEq, Eq, Structural)]
pub struct KernelSpace {
    /// The physical address of the PML4; the value for the page-table base
    /// register.
    pub pml4: u64,
    /// The physical address of the first frame of the heap.
    pub heap: u64,
}

/// The number of frames that the kernel's address space takes before the
/// heap: the PML4, and the PDP and PDs of the physical mapping.
pub const SPACE_FRAMES: u64 = 514;

/// The mapping of `v` in the kernel's address space: the pages of the heap
/// map to the frames from `heap` on, the rest of the last slot of the PML4
/// maps as it did in the hierarchy at `loader`, slot 256 holds the physical
/// mapping, and nothing else is mapped.
pub open spec fn kernel_leaf(before: Map<u64, u64>, loader: u64, heap: u64, v: u64) -> Option<
    (u64, int),
> {
    match heap_page(v, 20) {
        Some(i) => Some((heap_word(heap, i), 1int)),
        None => if pml4_index_of(v) == 511 {
            leaf_of(before, loader, v)
        } else if pml4_index_of(v) == 256 {
            Some((pd_word(512 * pdp_index_of(v) + pd_index_of(v)), 2int))
        } else {
            None
        },
    }
}

/// Whether the kernel's address space can be built from the frames at
/// `cursor`: the 514 frames of the PML4 and of the physical mapping are
/// frames of the memory, no huge page of the loader's hierarchy stands in
/// the way of the heap, and the tables that the heap lacks can be created
/// behind its frames.
pub open spec fn space_fits(mem: Map<u64, u64>, loader: u64, cursor: u64) -> bool {
    let wanted = missing_tables(mem, loader, HEAP_BASE);
    &&& run_backed(mem, cursor, 514)
    &&& !path_huge(mem, loader, HEAP_BASE)
    &&& tables_created(mem, (cursor + 534 * 4096) as u64, wanted) == wanted
}

/// The error with which building the kernel's address space fails.
pub open spec fn space_error(mem: Map<u64, u64>, loader: u64, cursor: u64) -> MapError {
    if run_backed(mem, cursor, 514) && path_huge(mem, loader, HEAP_BASE) {
        MapError::HugePage
    } else {
        MapError::OutOfFrames
    }
}

/// The memory once the PML4 at `root` is zeroed and holds the physical
/// mapping, built in the 513 frames behind it.
pub open spec fn space_mapped(before: Map<u64, u64>, root: u64) -> Map<u64, u64> {
    phys_mapped(zeroed(before, root), root, (root + 4096) as u64)
}

/// The memory once the PML4 at `root` holds the physical mapping and the
/// last entry of the PML4 at `loader`.
pub open spec fn space_grafted(before: Map<u64, u64>, loader: u64, root: u64) -> Map<u64, u64> {
    space_mapped(before, root).insert(
        slot(root, KERNEL_SLOT),
        entry_at(space_mapped(before, root), loader, KERNEL_SLOT),
    )
}

proof fn lemma_run_split(mem: Map<u64, u64>, cursor: u64)
    requires
        cursor % 4096 == 0,
    ensures
        run_backed(mem, cursor, 514) <==> frame_ready(mem, cursor, 0) && run_backed(
            mem,
            (cursor + 4096) as u64,
            513,
        ),
        run_backed(mem, cursor, 514) ==> cursor + 514 * 4096 <= MAX_PHYS_ADDR,
{
    let next = (cursor + 4096) as u64;
    if run_backed(mem, cursor, 514) {
        assert(frame_ready(mem, cursor, 0));
        assert(frame_ready(mem, cursor, 513));
        assert forall|n: int| 0 <= n < 513 implies #[trigger] frame_ready(mem, next, n) by {
            assert(frame_ready(mem, cursor, n + 1));
        }
    }
    if frame_ready(mem, cursor, 0) && run_backed(mem, next, 513) {
        assert forall|n: int| 0 <= n < 514 implies #[trigger] frame_ready(mem, cursor, n) by {
            if n > 0 {
                assert(frame_ready(mem, next, n - 1));
            }
        }
    }
}

/// The fresh PML4, zeroed, is a well-formed hierarchy that maps nothing,
/// and the loader's hierarchy is as it was.
proof fn lemma_space_zeroed(before: Map<u64, u64>, loader: u64, root: u64)
    requires
        tables_wf(before, loader, root),
        frame_ready(before, root, 0),
    ensures
        tables_wf(zeroed(before, root), root, (root + 4096) as u64),
        table_empty(zeroed(before, root), root),
        same_below(before, zeroed(before, root), root),
        zeroed(before, root).dom() == before.dom(),
{
    let now = zeroed(before, root);
    assert(now.dom() =~= before.dom());
    assert forall|i: u16| i < 512 implies #[trigger] entry_at(now, root, i) == 0 by {
        assert(before.dom().contains(word_addr(root, i as int)));
    }
    assert(frame_backed(now, root)) by {
        assert forall|i: int| 0 <= i < 512 implies now.dom().contains(
            #[trigger] word_addr(root, i),
        ) by {
            assert(before.dom().contains(word_addr(root, i)));
        }
    }
    lemma_empty_root(now, root, (root + 4096) as u64);
}

/// The mapping of `v` in the fresh hierarchy once it holds the physical
/// mapping.
spec fn mapped_leaf(v: u64) -> Option<(u64, int)> {
    if pml4_index_of(v) == 256 {
        Some((pd_word(512 * pdp_index_of(v) + pd_index_of(v)), 2int))
    } else {
        None
    }
}

/// The fresh hierarchy with the physical mapping is well formed, lies
/// above the loader's tables, and maps the physical mapping only; the
/// loader's hierarchy is as it was.
proof fn lemma_space_mapped(before: Map<u64, u64>, loader: u64, root: u64)
    requires
        tables_wf(before, loader, root),
        run_backed(before, root, 514),
    ensures
        tables_wf(space_mapped(before, root), root, (root + 514 * 4096) as u64),
        tables_above(space_mapped(before, root), root, root),
        same_below(before, space_mapped(before, root), root),
        forall|v: u64| #[trigger] leaf_of(space_mapped(before, root), root, v) == mapped_leaf(v),
        forall|i: u16|
            i < 512 && i != 256 ==> #[trigger] entry_at(space_mapped(before, root), root, i) == 0,
{
    let zero = zeroed(before, root);
    let pdp = (root + 4096) as u64;
    let now = space_mapped(before, root);
    lemma_run_split(before, root);
    lemma_space_zeroed(before, loader, root);
    assert(run_backed(zero, pdp, 513)) by {
        assert forall|n: int| 0 <= n < 513 implies #[trigger] frame_ready(zero, pdp, n) by {
            assert(frame_ready(before, pdp, n));
        }
    }
    lemma_phys_mapped_wf(zero, root, pdp);
    lemma_empty_root(zero, root, pdp);
    assert forall|v: u64, l: int| 1 <= l <= 4 implies match #[trigger] table_of(now, root, v, l) {
        Some(table) => table >= root,
        None => true,
    } by {
        assert(table_of(now, root, v, l) == crate::phys_map::phys_mapped_table_of(
            zero,
            root,
            pdp,
            v,
            l,
        ));
        assert(l < 4 ==> table_of(zero, root, v, l) is None);
    }
    assert forall|v: u64| #[trigger] leaf_of(now, root, v) == mapped_leaf(v) by {
        assert(leaf_of(now, root, v) == crate::phys_map::phys_mapped_leaf_of(zero, root, v));
        assert(leaf_of(zero, root, v) is None);
    }
    lemma_space_mapped_words(before, root);
}

/// The words below the fresh PML4 are as they were, and the PML4 holds the
/// physical mapping in slot 256 and nothing else.
proof fn lemma_space_mapped_words(before: Map<u64, u64>, root: u64)
    requires
        run_backed(before, root, 514),
        root % 4096 == 0,
    ensures
        same_below(before, space_mapped(before, root), root),
        forall|i: u16|
            i < 512 && i != 256 ==> #[trigger] entry_at(space_mapped(before, root), root, i) == 0,
{
    let zero = zeroed(before, root);
    let pdp = (root + 4096) as u64;
    let now = space_mapped(before, root);
    lemma_run_split(before, root);
    assert(frame_ready(before, root, 0));
    assert(before.dom().contains(word_addr(root, 256)));
    assert(now.dom() =~= before.dom());
    assert forall|i: u16| i < 512 && i != 256 implies #[trigger] entry_at(now, root, i) == 0 by {
        assert(before.dom().contains(word_addr(root, i as int)));
        crate::walk::lemma_slot_distinct(root, i, root, 256);
    }
}

/// The kernel's hierarchy with the loader's last entry in it is well
/// formed, maps what the loader mapped through that entry and the physical
/// mapping, and stands to the heap as the loader's hierarchy does.
proof fn lemma_space_grafted(before: Map<u64, u64>, loader: u64, root: u64)
    requires
        tables_wf(before, loader, root),
        run_backed(before, root, 514),
        pml4_index_of(HEAP_BASE) == 511,
    ensures
        tables_wf(space_grafted(before, loader, root), root, (root + 514 * 4096) as u64),
        space_grafted(before, loader, root).dom() == before.dom(),
        forall|v: u64| #[trigger]
            leaf_of(space_grafted(before, loader, root), root, v) == if pml4_index_of(v) == 511 {
                leaf_of(before, loader, v)
            } else {
                mapped_leaf(v)
            },
        path_huge(space_grafted(before, loader, root), root, HEAP_BASE) == path_huge(
            before,
            loader,
            HEAP_BASE,
        ),
        missing_tables(space_grafted(before, loader, root), root, HEAP_BASE) == missing_tables(
            before,
            loader,
            HEAP_BASE,
        ),
{
    let now = space_mapped(before, root);
    let after = space_grafted(before, loader, root);
    let limit = (root + 514 * 4096) as u64;
    lemma_run_split(before, root);
    lemma_space_mapped(before, loader, root);
    lemma_same_below(before, now, loader, root);
    lemma_graft(now, after, root, loader, KERNEL_SLOT, root, limit);
    assert forall|v: u64| #[trigger]
        leaf_of(after, root, v) == if pml4_index_of(v) == 511 {
            leaf_of(before, loader, v)
        } else {
            mapped_leaf(v)
        } by {
        assert(leaf_of(after, root, v) == grafted_leaf_of(now, root, loader, KERNEL_SLOT, v));
        assert(leaf_of(now, loader, v) == leaf_of(before, loader, v));
        assert(leaf_of(now, root, v) == mapped_leaf(v));
    }
    lemma_grafted_heap_path(before, now, after, loader, root);
}

/// The walk of the heap's first page meets the same entries in the
/// kernel's hierarchy as in the loader's.
proof fn lemma_grafted_heap_path(
    before: Map<u64, u64>,
    now: Map<u64, u64>,
    after: Map<u64, u64>,
    loader: u64,
    root: u64,
)
    requires
        tables_wf(before, loader, root),
        tables_wf(now, loader, root),
        frame_addr(root),
        pml4_index_of(HEAP_BASE) == 511,
        after == now.insert(slot(root, KERNEL_SLOT), entry_at(now, loader, KERNEL_SLOT)),
        now.dom().contains(slot(root, KERNEL_SLOT)),
        forall|v: u64, l: int|
            1 <= l <= 4 ==> #[trigger] table_of(now, loader, v, l) == table_of(
                before,
                loader,
                v,
                l,
            ),
        forall|table: u64, i: u16|
            frame_addr(table) && table < root && i < 512 ==> #[trigger] entry_at(now, table, i)
                == entry_at(before, table, i),
    ensures
        path_huge(after, root, HEAP_BASE) == path_huge(before, loader, HEAP_BASE),
        missing_tables(after, root, HEAP_BASE) == missing_tables(before, loader, HEAP_BASE),
{
    let v = HEAP_BASE;
    assert(table_of(before, loader, v, 4) == Some(loader));
    assert(table_of(now, loader, v, 4) == Some(loader));
    assert(entry_at(now, loader, KERNEL_SLOT) == entry_at(before, loader, KERNEL_SLOT));
    assert(entry_at(after, root, KERNEL_SLOT) == entry_at(before, loader, KERNEL_SLOT));
    let t3 = table_of(before, loader, v, 3);
    assert(table_of(after, root, v, 3) == t3);
    if t3 is Some {
        let t = t3->0;
        assert(frame_addr(t) && t < root);
        crate::walk::lemma_slot_distinct(t, pdp_index_of(v), root, KERNEL_SLOT);
        assert(entry_at(after, t, pdp_index_of(v)) == entry_at(before, t, pdp_index_of(v)));
    }
    let t2 = table_of(before, loader, v, 2);
    assert(table_of(after, root, v, 2) == t2);
    if t2 is Some {
        let t = t2->0;
        assert(frame_addr(t) && t < root);
        crate::walk::lemma_slot_distinct(t, pd_index_of(v), root, KERNEL_SLOT);
        assert(entry_at(after, t, pd_index_of(v)) == entry_at(before, t, pd_index_of(v)));
    }
    let t1 = table_of(before, loader, v, 1);
    assert(table_of(after, root, v, 1) == t1);
}

/// Entry `i` of the PML4 of the kernel's address space, built at `cursor`
/// from the hierarchy at `loader`. Slot 256 references the PDP of the
/// physical mapping, in the frame behind the PML4, present and writable.
/// The last slot holds the last entry of the loader's PML4 as it is; where
/// that entry is not present, the heap has got a PDP of its own behind its
/// frames, which the slot then references. Every other entry is 0.
pub open spec fn root_word(before: Map<u64, u64>, loader: u64, cursor: u64, i: u16) -> u64 {
    let kernel = entry_at(before, loader, KERNEL_SLOT);
    if i == 256 {
        ((cursor + 4096) as u64) | TABLE_FLAGS
    } else if i == KERNEL_SLOT {
        if entry_present(kernel) {
            kernel
        } else {
            ((cursor + 534 * 4096) as u64) | TABLE_FLAGS
        }
    } else {
        0
    }
}

/// Whether `after` holds, word for word, the kernel's address space built
/// at `cursor` from the hierarchy at `loader`: the memory is `heap_words`
/// of `space_grafted`, and so the entries of the PML4 are those of
/// `root_word`.
#[verifier::opaque]
pub open spec fn space_words(
    before: Map<u64, u64>,
    loader: u64,
    cursor: u64,
    after: Map<u64, u64>,
) -> bool {
    &&& after == heap_words(
        space_grafted(before, loader, cursor),
        cursor,
        (cursor + 514 * 4096) as u64,
    )
    &&& forall|i: u16|
        i < 512 ==> #[trigger] entry_at(after, cursor, i) == root_word(before, loader, cursor, i)
}

/// What building the kernel's address space does, given the hierarchy at
/// `loader` and an allocator at `cursor`. If it fits, the PML4 lies at the
/// cursor and the heap 514 frames behind it, the hierarchy is well formed
/// and maps what `kernel_leaf` says, and no word of memory is touched but
/// in the frames that were handed out and in the loader's tables. Word for
/// word the memory is what `space_words` says: the PML4 is zeroed, gets
/// the PDP of the physical mapping in slot 256 and the loader's last entry
/// in slot 511, and then the heap is mapped; the entries of the PML4 are
/// then those of `root_word`. If it does not fit, it fails.
pub open spec fn space_post(
    before: Map<u64, u64>,
    loader: u64,
    cursor: u64,
    result: Result<KernelSpace, MapError>,
    after: Map<u64, u64>,
    new_cursor: u64,
) -> bool {
    &&& after.dom() == before.dom()
    &&& if space_fits(before, loader, cursor) {
        &&& result == Ok::<KernelSpace, MapError>(
            KernelSpace { pml4: cursor, heap: (cursor + 514 * 4096) as u64 },
        )
        &&& new_cursor == cursor + 4096 * (534 + missing_tables(before, loader, HEAP_BASE))
        &&& space_words(before, loader, cursor, after)
        &&& tables_wf(after, cursor, new_cursor)
        &&& others_kept(before, after, loader, cursor, new_cursor)
        &&& forall|v: u64| #[trigger]
            leaf_of(after, cursor, v) == kernel_leaf(
                before,
                loader,
                (cursor + 514 * 4096) as u64,
                v,
            )
    } else {
        result == Err::<KernelSpace, MapError>(space_error(before, loader, cursor))
    }
}

/// The result of the heap's mapping as the result of the whole.
spec fn space_result(cursor: u64, heap: Result<u64, MapError>) -> Result<KernelSpace, MapError> {
    match heap {
        Ok(addr) => Ok(KernelSpace { pml4: cursor, heap: addr }),
        Err(error) => Err(error),
    }
}

/// The memory with the loader's entry in place differs from the memory
/// before in the 514 frames at the cursor only.
proof fn lemma_space_words(before: Map<u64, u64>, loader: u64, cursor: u64, addr: u64)
    requires
        run_backed(before, cursor, 514),
        cursor % 4096 == 0,
        before.dom().contains(addr),
        !(cursor <= addr < cursor + 514 * 4096),
    ensures
        space_grafted(before, loader, cursor)[addr] == before[addr],
        space_grafted(before, loader, cursor).dom().contains(addr),
{
    lemma_run_split(before, cursor);
    assert(frame_ready(before, cursor, 0));
    assert(before.dom().contains(word_addr(cursor, 256)));
    assert(before.dom().contains(word_addr(cursor, 511)));
}

/// A table of the kernel's hierarchy with the loader's entry in place is
/// a table of the loader's hierarchy or one of the 514 frames at the
/// cursor.
proof fn lemma_space_tables(before: Map<u64, u64>, loader: u64, cursor: u64, frame: u64)
    requires
        tables_wf(before, loader, cursor),
        run_backed(before, cursor, 514),
        is_table(space_grafted(before, loader, cursor), cursor, frame),
    ensures
        is_table(before, loader, frame) || cursor <= frame < cursor + 514 * 4096,
{
    let now = space_mapped(before, cursor);
    let after = space_grafted(before, loader, cursor);
    let limit = (cursor + 514 * 4096) as u64;
    lemma_run_split(before, cursor);
    lemma_space_mapped(before, loader, cursor);
    lemma_same_below(before, now, loader, cursor);
    lemma_graft(now, after, cursor, loader, KERNEL_SLOT, cursor, limit);
    reveal(is_table);
    let (v, l) = choose|v: u64, l: int|
        1 <= l <= 4 && #[trigger] table_of(after, cursor, v, l) == Some(frame);
    assert(table_of(after, cursor, v, l) == crate::walk::grafted_table_of(
        now,
        cursor,
        loader,
        KERNEL_SLOT,
        v,
        l,
    ));
    if pml4_index_of(v) == 511 && l < 4 {
        assert(table_of(now, loader, v, l) == table_of(before, loader, v, l));
        assert(table_of(before, loader, v, l) == Some(frame));
    } else {
        assert(table_of(now, cursor, v, l) == Some(frame));
    }
}

/// Building the kernel's address space touches no word of memory but in
/// the frames that were handed out and in the loader's tables.
proof fn lemma_space_kept(
    before: Map<u64, u64>,
    loader: u64,
    cursor: u64,
    after: Map<u64, u64>,
    new_cursor: u64,
)
    requires
        tables_wf(before, loader, cursor),
        run_backed(before, cursor, 514),
        cursor + 534 * 4096 <= new_cursor,
        others_kept(
            space_grafted(before, loader, cursor),
            after,
            cursor,
            (cursor + 534 * 4096) as u64,
            new_cursor,
        ),
    ensures
        others_kept(before, after, loader, cursor, new_cursor),
{
    let grafted = space_grafted(before, loader, cursor);
    assert forall|addr: u64|
        before.dom().contains(addr) && !(cursor <= addr < new_cursor) && !is_table(
            before,
            loader,
            frame_of(addr),
        ) implies #[trigger] after[addr] == before[addr] by {
        lemma_space_words(before, loader, cursor, addr);
        if is_table(grafted, cursor, frame_of(addr)) {
            lemma_space_tables(before, loader, cursor, frame_of(addr));
        }
        assert(after[addr] == grafted[addr]);
    }
}

/// The entries of the fresh PML4 with the loader's last entry in place:
/// the physical mapping in slot 256, the loader's entry in the last slot,
/// and nothing else.
proof fn lemma_grafted_root(before: Map<u64, u64>, loader: u64, root: u64, i: u16)
    requires
        tables_wf(before, loader, root),
        run_backed(before, root, 514),
        i < 512,
    ensures
        entry_at(space_grafted(before, loader, root), root, i) == if i == 256 {
            ((root + 4096) as u64) | TABLE_FLAGS
        } else if i == KERNEL_SLOT {
            entry_at(before, loader, KERNEL_SLOT)
        } else {
            0
        },
{
    let now = space_mapped(before, root);
    let pdp = (root + 4096) as u64;
    lemma_run_split(before, root);
    lemma_space_mapped_words(before, root);
    assert(frame_ready(before, root, 0));
    assert(frame_addr(root));
    assert(table_of(before, loader, 0, 4) == Some(loader));
    assert(frame_addr(loader) && loader < root);
    assert(now.dom() == before.dom());
    assert(frame_backed(now, root));
    assert(entry_at(now, loader, KERNEL_SLOT) == entry_at(before, loader, KERNEL_SLOT)) by {
        crate::walk::lemma_slot_distinct(loader, KERNEL_SLOT, root, 0);
        if before.dom().contains(slot(loader, KERNEL_SLOT)) {
            assert(now[slot(loader, KERNEL_SLOT)] == before[slot(loader, KERNEL_SLOT)]);
        }
    }
    assert(entry_at(now, root, 256) == (pdp | TABLE_FLAGS)) by {
        assert(before.dom().contains(word_addr(root, 256)));
    }
    lemma_set_entry(now, root, KERNEL_SLOT, entry_at(now, loader, KERNEL_SLOT), root, i);
}

/// Writing the entries of the heap's pages to its PT changes no entry of
/// another table.
proof fn lemma_heap_filled_entry(
    mem: Map<u64, u64>,
    pt: u64,
    heap: u64,
    count: nat,
    table: u64,
    i: u16,
)
    requires
        frame_addr(pt),
        frame_backed(mem, pt),
        frame_addr(table),
        table != pt,
        count <= 512,
        i < 512,
    ensures
        entry_at(heap_filled(mem, pt, heap, count), table, i) == entry_at(mem, table, i),
        heap_filled(mem, pt, heap, count).dom() == mem.dom(),
    decreases count,
{
    if count > 1 {
        let shorter = heap_filled(mem, pt, heap, (count - 1) as nat);
        lemma_heap_filled_entry(mem, pt, heap, (count - 1) as nat, table, i);
        assert(frame_backed(shorter, pt));
        lemma_set_entry(shorter, pt, (count - 1) as u16, heap_word(heap, count - 1), table, i);
    }
}

/// Mapping the heap changes one entry of the PML4 at most: the last, and
/// only where it was not present, to reference the PDP that the heap has
/// got behind its frames.
proof fn lemma_heap_root(before: Map<u64, u64>, root: u64, cursor: u64, i: u16)
    requires
        tables_wf(before, root, cursor),
        heap_fits(before, root, cursor),
        pml4_index_of(HEAP_BASE) == 511,
        i < 512,
    ensures
        entry_at(heap_words(before, root, cursor), root, i) == if i == KERNEL_SLOT
            && !entry_present(entry_at(before, root, KERNEL_SLOT)) {
            ((cursor + 20 * 4096) as u64) | TABLE_FLAGS
        } else {
            entry_at(before, root, i)
        },
{
    let first = (cursor + 20 * 4096) as u64;
    let word = heap_word(cursor, 0);
    let one = mapped(before, first, root, HEAP_BASE, word);
    let pt = table_on(before, first, root, HEAP_BASE, 1);
    let wanted = missing_tables(before, root, HEAP_BASE);
    lemma_known_flags();
    assert(table_of(before, root, HEAP_BASE, 4) == Some(root));
    assert(frame_addr(root) && root < cursor);
    assert(first % 4096 == 0);
    lemma_limit_grows(before, root, cursor, first);
    lemma_mapped_entry(before, first, root, HEAP_BASE, word, root, i);
    crate::mapper::lemma_table_place(before, first, root, HEAP_BASE, 1);
    crate::mapper::lemma_table_place(before, first, root, HEAP_BASE, 2);
    crate::mapper::lemma_table_place(before, first, root, HEAP_BASE, 3);
    crate::mapper::lemma_table_place(before, first, root, HEAP_BASE, 4);
    assert(one.dom() == before.dom()) by {
        crate::mapper::lemma_mapped_dom(before, first, root, HEAP_BASE, word);
    }
    assert(frame_backed(one, pt));
    lemma_heap_filled_entry(one, pt, cursor, 20, root, i);
}

/// With the loader's entry in place, what the mapping of the heap does is
/// what is left of building the space.
proof fn lemma_space_done(
    before: Map<u64, u64>,
    loader: u64,
    cursor: u64,
    heap: Result<u64, MapError>,
    after: Map<u64, u64>,
    new_cursor: u64,
)
    requires
        tables_wf(before, loader, cursor),
        run_backed(before, cursor, 514),
        heap_post(
            space_grafted(before, loader, cursor),
            cursor,
            (cursor + 514 * 4096) as u64,
            heap,
            after,
            new_cursor,
        ),
    ensures
        space_post(before, loader, cursor, space_result(cursor, heap), after, new_cursor),
{
    let grafted = space_grafted(before, loader, cursor);
    let start = (cursor + 514 * 4096) as u64;
    let wanted = missing_tables(before, loader, HEAP_BASE);
    lemma_heap_indices(0);
    lemma_run_split(before, cursor);
    lemma_space_grafted(before, loader, cursor);
    assert(tables_created(grafted, (start + 20 * 4096) as u64, wanted) == tables_created(
        before,
        (cursor + 534 * 4096) as u64,
        wanted,
    ));
    assert(heap_fits(grafted, cursor, start) == space_fits(before, loader, cursor));
    if space_fits(before, loader, cursor) {
        lemma_space_kept(before, loader, cursor, after, new_cursor);
        assert(space_words(before, loader, cursor, after)) by {
            reveal(space_words);
            assert forall|i: u16| i < 512 implies #[trigger] entry_at(after, cursor, i)
                == root_word(before, loader, cursor, i) by {
                lemma_grafted_root(before, loader, cursor, i);
                lemma_grafted_root(before, loader, cursor, KERNEL_SLOT);
                lemma_heap_root(grafted, cursor, start, i);
            }
        }
        assert forall|v: u64| #[trigger]
            leaf_of(after, cursor, v) == kernel_leaf(before, loader, start, v) by {
            assert(leaf_of(after, cursor, v) == heap_leaf(grafted, cursor, start, 20, v));
            assert(leaf_of(grafted, cursor, v) == if pml4_index_of(v) == 511 {
                leaf_of(before, loader, v)
            } else {
                mapped_leaf(v)
            });
        }
    }
}

/// Builds the kernel's address space and returns where it lies.
///
/// A frame is taken for the PML4 and zeroed, the physical mapping is built
/// in the next 513 frames, the last entry of the PML4 at
/// `existing_pml4_addr`, which holds the kernel image and its stack, is
/// copied over, and the heap is mapped. The caller activates the
/// hierarchy by loading the PML4's address into the page-table base
/// register.
pub fn init(mem: &mut PhysMemory, alloc: &mut BumpAllocator, existing_pml4_addr: u64) -> (result:
    Result<KernelSpace, MapError>)
    requires
        old(mem).wf(),
        tables_wf(old(mem)@, existing_pml4_addr, old(alloc).cursor()),
    ensures
        final(mem).wf(),
        space_post(
            old(mem)@,
            existing_pml4_addr,
            old(alloc).cursor(),
            result,
            final(mem)@,
            final(alloc).cursor(),
        ),
{
    let ghost before = mem@;
    let ghost loader = existing_pml4_addr;
    let ghost cursor = alloc.cursor();
    proof {
        lemma_run_split(before, cursor);
    }
    // Take a frame for the PML4 and zero it out
    let mapper = match Mapper::create(mem, alloc) {
        Ok(mapper) => mapper,
        Err(error) => {
            return Err(error);
        },
    };
    let pml4_phys_addr = mapper.pml4_addr();
    proof {
        assert(mem@.dom() =~= before.dom());
        lemma_run_same(before, mem@, (cursor + 4096) as u64, 513);
    }

    // Map the whole of physical memory
    match map_physical_memory(mem, alloc, pml4_phys_addr) {
        Ok(()) => {},
        Err(error) => {
            return Err(error);
        },
    }
    proof {
        assert(run_backed(before, cursor, 514));
        assert(mem@ == space_mapped(before, cursor));
        assert(frame_backed(mem@, loader) && frame_backed(mem@, cursor)) by {
            lemma_space_mapped(before, loader, cursor);
            lemma_same_below(before, mem@, loader, cursor);
            assert(table_of(mem@, loader, 0, 4) == Some(loader));
            assert(table_of(mem@, cursor, 0, 4) == Some(cursor));
        }
    }

    // Copy the last entry of the existing PML4, this includes the existing
    // kernel mapping and stack
    let existing_pml4 = PageTable::new(existing_pml4_addr);
    let kernel_entry = existing_pml4.entry(mem, KERNEL_SLOT);
    PageTable::new(pml4_phys_addr).set_entry(mem, KERNEL_SLOT, kernel_entry);
    proof {
        assert(mem@ == space_grafted(before, loader, cursor)) by {
            assert(table_of(before, loader, 0, 4) == Some(loader));
        }
        assert(tables_wf(mem@, cursor, alloc.cursor())) by {
            lemma_heap_indices(0);
            lemma_space_grafted(before, loader, cursor);
        }
    }

    // Allocate and map 80 KiB of memory for the kernel heap
    let heap = map_heap(&mapper, mem, alloc);
    proof {
        lemma_space_done(before, loader, cursor, heap, mem@, alloc.cursor());
    }
    match heap {
        Ok(addr) => Ok(KernelSpace { pml4: pml4_phys_addr, heap: addr }),
        Err(error) => Err(error),
    }
}

/// What building the kernel's address space does with an allocator whose
/// cursor may stand anywhere. A cursor below the start of the kernel's
/// frames, or one that is no multiple of the frame size, is refused:
/// nothing changes. From any other cursor the space is built as
/// `space_post` says.
pub open spec fn space_from(
    before: Map<u64, u64>,
    loader: u64,
    cursor: u64,
    result: Result<KernelSpace, MapError>,
    after: Map<u64, u64>,
    new_cursor: u64,
) -> bool {
    if cursor < FRAME_ALLOCATOR_START || cursor % 4096 != 0 {
        &&& result == Err::<KernelSpace, MapError>(MapError::OutOfFrames)
        &&& after == before
        &&& new_cursor == cursor
    } else {
        space_post(before, loader, cursor, result, after, new_cursor)
    }
}

/// Builds the kernel's address space, as `init` does, with frames from an
/// allocator of which nothing is known. The loader's tables have to lie
/// below the start of the kernel's frames; the allocator is looked at
/// before a frame is taken, and refused where its cursor is below that
/// start or off the frame boundary.
pub fn init_from(
    mem: &mut PhysMemory,
    alloc: &mut BumpAllocator,
    existing_pml4_addr: u64,
) -> (result: Result<KernelSpace, MapError>)
    requires
        old(mem).wf(),
        tables_wf(old(mem)@, existing_pml4_addr, FRAME_ALLOCATOR_START),
    ensures
        final(mem).wf(),
        space_from(
            old(mem)@,
            existing_pml4_addr,
            old(alloc).cursor(),
            result,
            final(mem)@,
            final(alloc).cursor(),
        ),
{
    let cursor = alloc.peek();
    if cursor < FRAME_ALLOCATOR_START || cursor % 4096 != 0 {
        return Err(MapError::OutOfFrames);
    }
    proof {
        lemma_limit_grows(mem@, existing_pml4_addr, FRAME_ALLOCATOR_START, cursor);
    }
    init(mem, alloc, existing_pml4_addr)
}

/// In the kernel's address space every physical address below 512 GiB is
/// found at the fixed offset: `PHYS_MEM_OFFSET | phys` translates to
/// `phys`.
pub proof fn lemma_space_maps_physical(
    before: Map<u64, u64>,
    loader: u64,
    cursor: u64,
    space: KernelSpace,
    after: Map<u64, u64>,
    new_cursor: u64,
    phys: u64,
)
    requires
        space_post(
            before,
            loader,
            cursor,
            Ok::<KernelSpace, MapError>(space),
            after,
            new_cursor,
        ),
        phys < PHYS_MAP_SIZE,
    ensures
        translate_spec(after, space.pml4, phys_to_virt(phys)) == Some(phys),
{
    let v = phys_to_virt(phys);
    crate::phys_map::lemma_phys_page_address(phys);
    assert(leaf_of(after, cursor, v) == kernel_leaf(
        before,
        loader,
        (cursor + 514 * 4096) as u64,
        v,
    ));
}

/// In the kernel's address space, what the loader mapped through the last
/// slot of its PML4, the kernel image and its stack, translates as it did
/// in the loader's hierarchy, but for the pages of the heap.
pub proof fn lemma_space_keeps_kernel(
    before: Map<u64, u64>,
    loader: u64,
    cursor: u64,
    space: KernelSpace,
    after: Map<u64, u64>,
    new_cursor: u64,
    v: u64,
)
    requires
        space_post(
            before,
            loader,
            cursor,
            Ok::<KernelSpace, MapError>(space),
            after,
            new_cursor,
        ),
        pml4_index_of(v) == 511,
        heap_page(v, 20) is None,
    ensures
        translate_spec(after, space.pml4, v) == translate_spec(before, loader, v),
{
    assert(leaf_of(after, cursor, v) == kernel_leaf(
        before,
        loader,
        (cursor + 514 * 4096) as u64,
        v,
    ));
}

/// The PML4 of the kernel's address space holds three entries at most:
/// the PDP of the physical mapping in slot 256, present and writable; in
/// the last slot the loader's last entry, or the heap's own PDP where the
/// loader had none; and 0 everywhere else.
pub proof fn lemma_space_root_words(
    before: Map<u64, u64>,
    loader: u64,
    cursor: u64,
    space: KernelSpace,
    after: Map<u64, u64>,
    new_cursor: u64,
    i: u16,
)
    requires
        space_post(
            before,
            loader,
            cursor,
            Ok::<KernelSpace, MapError>(space),
            after,
            new_cursor,
        ),
        i < 512,
    ensures
        space.pml4 == cursor,
        entry_at(after, space.pml4, i) == root_word(before, loader, cursor, i),
        entry_at(after, space.pml4, 256) == ((cursor + 4096) as u64) | TABLE_FLAGS,
{
    reveal(space_words);
}

/// How the indices and the page offset of an address of the heap follow
/// from its offset in the heap.
proof fn lemma_heap_offset_bits(v: u64, offset: u64)
    by (bit_vector)
    requires
        offset < 20 * 4096,
        v == 0xffff_ff80_0000_0000 + offset,
    ensures
        (v >> 39) % 512 == 511,
        (v >> 30) % 512 == 0,
        (v >> 21) % 512 == 0,
        (v >> 12) % 512 == offset / 4096,
        v % 4096 == offset % 4096,
        offset / 4096 < 20,
{
}

/// In the kernel's address space the heap is 80 KiB of consecutive memory:
/// the address `offset` bytes into the heap translates to the address
/// `offset` bytes into the heap's frames.
pub proof fn lemma_space_maps_heap(
    before: Map<u64, u64>,
    loader: u64,
    cursor: u64,
    space: KernelSpace,
    after: Map<u64, u64>,
    new_cursor: u64,
    offset: u64,
)
    requires
        space_post(
            before,
            loader,
            cursor,
            Ok::<KernelSpace, MapError>(space),
            after,
            new_cursor,
        ),
        space.heap + 20 * 4096 <= MAX_PHYS_ADDR,
        cursor % 4096 == 0,
        offset < 20 * 4096,
    ensures
        translate_spec(after, space.pml4, (HEAP_BASE + offset) as u64) == Some(
            (space.heap + offset) as u64,
        ),
{
    let v = (HEAP_BASE + offset) as u64;
    let page = offset / 4096;
    lemma_heap_offset_bits(v, offset);
    lemma_known_flags();
    lemma_pack_unpack((space.heap + 0x1000 * page) as u64, TABLE_FLAGS);
    assert(leaf_of(after, cursor, v) == kernel_leaf(before, loader, space.heap, v));
    assert(heap_page(v, 20) == Some(page as int));
}

} // verus!
