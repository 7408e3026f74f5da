//! The page-table mapper.
//!
//! A mapper installs 4 KiB mappings in the hierarchy under its PML4. Tables
//! that a mapping needs and that are not there yet come from a frame
//! allocator, zeroed. Mappings are permanent: there is no unmapping.

use vstd::prelude::*;
use crate::frame_alloc::BumpAllocator;
use crate::paging::{
    entry_addr, entry_huge, entry_present, flags_only, frame_addr, lemma_known_flags,
    lemma_pack_unpack, pd_index_of, pdp_index_of, pml4_index_of, pt_index_of, PageTable,
    PageTableEntry, VirtAddr, TABLE_FLAGS,
};
use crate::phys_mem::{frame_backed, frame_of, zeroed, PhysMemory, MAX_PHYS_ADDR};
use crate::walk::{
    child, entry_at, index_of, leaf_of, leaf_set, lemma_link, lemma_linked_entries, lemma_set_entry,
    lemma_set_leaf, linked, pd_of, pdp_of, pt_of, same_page, slot, table_of, tables_wf,
    translate_spec,
};

verus! {

/// Why a mapping could not be installed.
#[derive(Clone, Copy, Debug, PartialEq, Eq, Structural)]
pub enum MapError {
    /// A huge page stands where the walk needs a table.
    HugePage,
    /// A table was needed and no frame could be had for it.
    OutOfFrames,
}

/// Why an address could not be translated.
#[derive(Clone, Copy, Debug, PartialEq, Eq, Structural)]
pub enum TranslateError {
    /// No mapping covers the address.
    NotMapped,
}

/// Whether a huge page stands on the walk of `virt` where a mapping of its
/// 4 KiB page needs a table.
pub open spec fn path_huge(mem: Map<u64, u64>, root: u64, virt: u64) -> bool {
    ||| {
        let entry = entry_at(mem, root, pml4_index_of(virt));
        entry_present(entry) && entry_huge(entry)
    }
    ||| {
        &&& pdp_of(mem, root, virt) matches Some(table)
        &&& entry_present(entry_at(mem, table, pdp_index_of(virt)))
        &&& entry_huge(entry_at(mem, table, pdp_index_of(virt)))
    }
    ||| {
        &&& pd_of(mem, root, virt) matches Some(table)
        &&& entry_present(entry_at(mem, table, pd_index_of(virt)))
        &&& entry_huge(entry_at(mem, table, pd_index_of(virt)))
    }
}

/// The number of tables below the PML4 that the walk of `virt` lacks.
pub open spec fn missing_tables(mem: Map<u64, u64>, root: u64, virt: u64) -> nat {
    if pt_of(mem, root, virt) is Some {
        0
    } else if pd_of(mem, root, virt) is Some {
        1
    } else if pdp_of(mem, root, virt) is Some {
        2
    } else {
        3
    }
}

/// Whether frame number `n` counted from `cursor` can become a table: it is
/// a frame of the memory.
pub open spec fn frame_ready(mem: Map<u64, u64>, cursor: u64, n: int) -> bool {
    cursor + 4096 * n < MAX_PHYS_ADDR && frame_backed(mem, (cursor + 4096 * n) as u64)
}

/// The number of tables that get created when `wanted` tables, at most
/// three, are asked for one after the other from `cursor` on: creation
/// stops at the first frame that cannot become a table.
pub open spec fn tables_created(mem: Map<u64, u64>, cursor: u64, wanted: nat) -> nat {
    if wanted >= 1 && frame_ready(mem, cursor, 0) {
        if wanted >= 2 && frame_ready(mem, cursor, 1) {
            if wanted >= 3 && frame_ready(mem, cursor, 2) {
                3
            } else {
                2
            }
        } else {
            1
        }
    } else {
        0
    }
}

/// The table at `level` on the walk of `virt` once the tables that the
/// walk lacks have been created from the frames at `cursor`: the table that
/// was there, or the fresh one. The fresh tables take the frames in the
/// order of the walk, the highest of them first.
pub open spec fn table_on(
    before: Map<u64, u64>,
    cursor: u64,
    root: u64,
    virt: u64,
    level: int,
) -> u64 {
    let wanted = missing_tables(before, root, virt) as int;
    if wanted >= level {
        (cursor + 4096 * (wanted - level)) as u64
    } else {
        table_of(before, root, virt, level)->0
    }
}

/// The memory once the first `made` of the tables that the walk of `virt`
/// lacks have been created: each takes the next frame from `cursor` on,
/// which is zeroed, and the entry of `virt` in the table above it is set to
/// the frame's address with the present and the writable bit. Every other
/// word is as in `before`.
pub open spec fn tables_linked(
    before: Map<u64, u64>,
    cursor: u64,
    root: u64,
    virt: u64,
    made: nat,
) -> Map<u64, u64>
    decreases made,
{
    if made == 0 {
        before
    } else {
        let level = missing_tables(before, root, virt) - made + 1;
        let fresh = (cursor + 4096 * (made - 1)) as u64;
        zeroed(tables_linked(before, cursor, root, virt, (made - 1) as nat), fresh).insert(
            slot(table_on(before, cursor, root, virt, level + 1), index_of(virt, level + 1)),
            (fresh | TABLE_FLAGS),
        )
    }
}

/// The memory once `virt` has been mapped by the entry `word`, word for
/// word. Where a huge page is in the way it is the memory as it was.
/// Otherwise the tables that the walk lacks are created as far as there are
/// frames for them; if all of them are there, `word` is written at the
/// place of `virt` in the PT.
pub open spec fn mapped(
    before: Map<u64, u64>,
    cursor: u64,
    root: u64,
    virt: u64,
    word: u64,
) -> Map<u64, u64> {
    let wanted = missing_tables(before, root, virt);
    let made = tables_created(before, cursor, wanted);
    if path_huge(before, root, virt) {
        before
    } else if made == wanted {
        tables_linked(before, cursor, root, virt, wanted).insert(
            slot(table_on(before, cursor, root, virt, 1), pt_index_of(virt)),
            word,
        )
    } else {
        tables_linked(before, cursor, root, virt, made)
    }
}

/// Entry `index` of the table at `table` once the first `made` of the
/// tables that the walk of `virt` lacks have been created. The entry of
/// `virt` in the table above a fresh table references that table, present
/// and writable; every other entry of a fresh table is 0; every other
/// entry of any other table is as it was.
pub open spec fn linked_entry(
    before: Map<u64, u64>,
    cursor: u64,
    root: u64,
    virt: u64,
    made: int,
    table: u64,
    index: u16,
) -> u64 {
    let wanted = missing_tables(before, root, virt) as int;
    if wanted - made < 1 <= wanted && table == table_on(before, cursor, root, virt, 2) && index
        == index_of(virt, 2) {
        table_on(before, cursor, root, virt, 1) | TABLE_FLAGS
    } else if wanted - made < 2 <= wanted && table == table_on(before, cursor, root, virt, 3)
        && index == index_of(virt, 3) {
        table_on(before, cursor, root, virt, 2) | TABLE_FLAGS
    } else if wanted - made < 3 <= wanted && table == table_on(before, cursor, root, virt, 4)
        && index == index_of(virt, 4) {
        table_on(before, cursor, root, virt, 3) | TABLE_FLAGS
    } else if cursor <= table < cursor + 4096 * made {
        0
    } else {
        entry_at(before, table, index)
    }
}

/// Entry `index` of the table at `table` once `virt` has been mapped by
/// the entry `word`: what `mapped` holds there. `word` stands at the place
/// of `virt` in the PT; the tables above are linked as `linked_entry`
/// says; no other entry of any table has changed.
pub open spec fn mapped_entry(
    before: Map<u64, u64>,
    cursor: u64,
    root: u64,
    virt: u64,
    word: u64,
    table: u64,
    index: u16,
) -> u64 {
    let wanted = missing_tables(before, root, virt);
    let made = tables_created(before, cursor, wanted);
    if path_huge(before, root, virt) {
        entry_at(before, table, index)
    } else if made == wanted && table == table_on(before, cursor, root, virt, 1) && index
        == pt_index_of(virt) {
        word
    } else {
        linked_entry(before, cursor, root, virt, made as int, table, index)
    }
}

/// Whether every table that a walk went through in `before` is the table
/// that it goes through in `after`.
pub open spec fn tables_kept(before: Map<u64, u64>, after: Map<u64, u64>, root: u64) -> bool {
    forall|v: u64, l: int|
        1 <= l <= 4 && table_of(before, root, v, l) is Some ==> #[trigger] table_of(
            after,
            root,
            v,
            l,
        ) == table_of(before, root, v, l)
}

/// Whether the frame at `frame` is a table of the hierarchy at `root`:
/// some walk goes through it.
#[verifier::opaque]
pub open spec fn is_table(mem: Map<u64, u64>, root: u64, frame: u64) -> bool {
    exists|v: u64, l: int| 1 <= l <= 4 && #[trigger] table_of(mem, root, v, l) == Some(frame)
}

/// A frame that a walk goes through is a table.
pub proof fn lemma_is_table(mem: Map<u64, u64>, root: u64, v: u64, l: int)
    requires
        1 <= l <= 4,
        table_of(mem, root, v, l) is Some,
    ensures
        is_table(mem, root, table_of(mem, root, v, l)->0),
{
    reveal(is_table);
}

/// Whether every word outside the tables of the hierarchy at `root` and
/// outside the frames from `cursor` up to `new_cursor` is in `after` as it
/// was in `before`.
pub open spec fn others_kept(
    before: Map<u64, u64>,
    after: Map<u64, u64>,
    root: u64,
    cursor: u64,
    new_cursor: u64,
) -> bool {
    forall|addr: u64|
        before.dom().contains(addr) && !(cursor <= addr < new_cursor) && !is_table(
            before,
            root,
            frame_of(addr),
        ) ==> #[trigger] after[addr] == before[addr]
}

/// Whether every table of the hierarchy at `root` in `after` is a table
/// that it had in `before` or lies in the frames from `cursor` up to
/// `new_cursor`.
pub open spec fn tables_from(
    before: Map<u64, u64>,
    after: Map<u64, u64>,
    root: u64,
    cursor: u64,
    new_cursor: u64,
) -> bool {
    forall|v: u64, l: int|
        1 <= l <= 4 ==> match #[trigger] table_of(after, root, v, l) {
            Some(table) => is_table(before, root, table) || cursor <= table < new_cursor,
            None => true,
        }
}

/// Whether nothing but page tables has been touched from `before` to
/// `after`: every word outside the tables of the hierarchy and outside the
/// frames from `cursor` up to `new_cursor`, which have been handed out, is
/// as it was, and every table is an old one or lies in those frames.
pub open spec fn only_tables_touched(
    before: Map<u64, u64>,
    after: Map<u64, u64>,
    root: u64,
    cursor: u64,
    new_cursor: u64,
) -> bool {
    &&& others_kept(before, after, root, cursor, new_cursor)
    &&& tables_from(before, after, root, cursor, new_cursor)
}

/// A table of a hierarchy whose tables are old ones or fresh ones is an old
/// one or a fresh one.
pub proof fn lemma_table_origin(
    before: Map<u64, u64>,
    after: Map<u64, u64>,
    root: u64,
    cursor: u64,
    new_cursor: u64,
    frame: u64,
)
    requires
        tables_from(before, after, root, cursor, new_cursor),
        is_table(after, root, frame),
    ensures
        is_table(before, root, frame) || cursor <= frame < new_cursor,
{
    reveal(is_table);
    let (v, l) = choose|v: u64, l: int|
        1 <= l <= 4 && #[trigger] table_of(after, root, v, l) == Some(frame);
    assert(table_of(after, root, v, l) == Some(frame));
}

/// What is touched in two steps, one after the other, is touched in one.
pub proof fn lemma_touched_twice(
    first: Map<u64, u64>,
    second: Map<u64, u64>,
    third: Map<u64, u64>,
    root: u64,
    cursor: u64,
    mid_cursor: u64,
    new_cursor: u64,
)
    requires
        only_tables_touched(first, second, root, cursor, mid_cursor),
        only_tables_touched(second, third, root, mid_cursor, new_cursor),
        cursor <= mid_cursor <= new_cursor,
        mid_cursor % 4096 == 0,
        second.dom() == first.dom(),
    ensures
        only_tables_touched(first, third, root, cursor, new_cursor),
{
    assert forall|addr: u64|
        first.dom().contains(addr) && !(cursor <= addr < new_cursor) && !is_table(
            first,
            root,
            frame_of(addr),
        ) implies #[trigger] third[addr] == first[addr] by {
        assert(second[addr] == first[addr]);
        if is_table(second, root, frame_of(addr)) {
            lemma_table_origin(first, second, root, cursor, mid_cursor, frame_of(addr));
        }
        assert(third[addr] == second[addr]);
    }
    assert forall|v: u64, l: int| 1 <= l <= 4 implies match #[trigger] table_of(third, root, v, l) {
        Some(table) => is_table(first, root, table) || cursor <= table < new_cursor,
        None => true,
    } by {
        if table_of(third, root, v, l) is Some {
            let table = table_of(third, root, v, l)->0;
            if is_table(second, root, table) {
                lemma_table_origin(first, second, root, cursor, mid_cursor, table);
            }
        }
    }
}

/// What mapping the page of `virt` to `phys` with `flags` does to a
/// well-formed hierarchy at `root` whose allocator stands at `cursor`.
///
/// Where a huge page is in the way, the request is refused and nothing
/// changes. Otherwise the missing tables are created from consecutive
/// frames; if one of them is no frame of the memory the request fails there,
/// with the tables created so far linked in and every translation as it
/// was. If all are there, the entry `phys | flags` is written: it decides
/// the mapping of the page of `virt`, and every other address maps as
/// before. No table that was there is moved or dropped, and no word of
/// memory is touched but in the tables and in the frames that became
/// tables.
pub open spec fn map_post(
    before: Map<u64, u64>,
    cursor: u64,
    root: u64,
    virt: u64,
    phys: u64,
    flags: u64,
    result: Result<(), MapError>,
    after: Map<u64, u64>,
    new_cursor: u64,
) -> bool {
    let wanted = missing_tables(before, root, virt);
    let made = tables_created(before, cursor, wanted);
    &&& after.dom() == before.dom()
    &&& tables_kept(before, after, root)
    &&& only_tables_touched(before, after, root, cursor, new_cursor)
    &&& if path_huge(before, root, virt) {
        &&& result == Err::<(), MapError>(MapError::HugePage)
        &&& after == before
        &&& new_cursor == cursor
    } else {
        &&& new_cursor == cursor + 4096 * made
        &&& tables_wf(after, root, new_cursor)
        &&& if made == wanted {
            &&& result == Ok::<(), MapError>(())
            &&& pt_of(after, root, virt) is Some
            &&& forall|v: u64| #[trigger]
                leaf_of(after, root, v) == leaf_set(before, root, virt, (phys | flags), v)
        } else {
            &&& result == Err::<(), MapError>(MapError::OutOfFrames)
            &&& forall|v: u64| #[trigger] leaf_of(after, root, v) == leaf_of(before, root, v)
        }
    }
}

/// Installs mappings in the hierarchy under one PML4.
#[derive(Clone, Copy, Debug)]
pub struct Mapper {
    pml4: PageTable,
}

/// What a step of the walk found or made.
enum Step {
    /// The entry referenced this table already.
    Found(PageTable),
    /// The entry was not present: this table was created and linked in.
    Created(PageTable),
}

impl Mapper {
    /// The address of the PML4.
    pub closed spec fn root(&self) -> u64 {
        self.pml4.base()
    }

    /// Whether the mapper's hierarchy is well formed in `mem`, with every
    /// table below the cursor of `alloc`.
    pub open spec fn wf(&self, mem: &PhysMemory, alloc: &BumpAllocator) -> bool {
        mem.wf() && tables_wf(mem@, self.root(), alloc.cursor())
    }

    /// Initializes a new mapper with the PML4 at the given address.
    pub fn new(pml4_addr: u64) -> (mapper: Self)
        ensures
            mapper.root() == pml4_addr,
    {
        Self { pml4: PageTable::new(pml4_addr) }
    }

    /// Starts a hierarchy: takes the frame at the cursor of `alloc` for the
    /// PML4 and zeroes it. The hierarchy is well formed and maps nothing.
    /// If the frame at the cursor is no frame of the memory, nothing is
    /// taken and nothing written.
    pub fn create(mem: &mut PhysMemory, alloc: &mut BumpAllocator) -> (mapper: Result<
        Self,
        MapError,
    >)
        requires
            old(mem).wf(),
        ensures
            final(mem).wf(),
            frame_ready(old(mem)@, old(alloc).cursor(), 0) ==> {
                &&& mapper matches Ok(made)
                &&& made.root() == old(alloc).cursor()
                &&& made.wf(final(mem), final(alloc))
                &&& final(alloc).cursor() == old(alloc).cursor() + 4096
                &&& final(mem)@ == crate::phys_mem::zeroed(old(mem)@, old(alloc).cursor())
                &&& forall|v: u64| #[trigger] leaf_of(final(mem)@, made.root(), v) is None
            },
            !frame_ready(old(mem)@, old(alloc).cursor(), 0) ==> {
                &&& mapper == Err::<Self, MapError>(MapError::OutOfFrames)
                &&& final(mem)@ == old(mem)@
                &&& final(alloc).cursor() == old(alloc).cursor()
            },
    {
        let pml4_addr = alloc.peek();
        if pml4_addr >= MAX_PHYS_ADDR || !mem.backs_frame(pml4_addr) {
            return Err(MapError::OutOfFrames);
        }
        match alloc.allocate(1) {
            Ok(_) => {},
            Err(_) => {
                return Err(MapError::OutOfFrames);
            },
        }
        let ghost before = mem@;
        mem.zero_frame(pml4_addr);
        proof {
            assert(mem@.dom() =~= before.dom());
            assert forall|i: u16| i < 512 implies #[trigger] entry_at(mem@, pml4_addr, i) == 0 by {
                assert(before.dom().contains(crate::phys_mem::word_addr(pml4_addr, i as int)));
            }
            assert(frame_backed(mem@, pml4_addr)) by {
                assert forall|i: int| 0 <= i < 512 implies mem@.dom().contains(
                    #[trigger] crate::phys_mem::word_addr(pml4_addr, i),
                ) by {
                    assert(before.dom().contains(crate::phys_mem::word_addr(pml4_addr, i)));
                }
            }
            crate::walk::lemma_empty_root(mem@, pml4_addr, (pml4_addr + 4096) as u64);
        }
        Ok(Self { pml4: PageTable::new(pml4_addr) })
    }

    /// The address of the PML4.
    pub fn pml4_addr(&self) -> (addr: u64)
        ensures
            addr == self.root(),
    {
        self.pml4.addr()
    }

    /// Follows entry `index` of `table` to the table it references,
    /// creating that table if the entry is not present.
    fn descend(
        mem: &mut PhysMemory,
        alloc: &mut BumpAllocator,
        table: PageTable,
        index: u16,
    ) -> (step: Result<Step, MapError>)
        requires
            old(mem).wf(),
            frame_addr(table.base()),
            frame_backed(old(mem)@, table.base()),
            index < 512,
            old(alloc).cursor() % 4096 == 0,
        ensures
            final(mem).wf(),
            final(mem)@.dom() == old(mem)@.dom(),
            ({
                let entry = entry_at(old(mem)@, table.base(), index);
                let fresh = old(alloc).cursor();
                if entry_present(entry) {
                    &&& final(mem)@ == old(mem)@
                    &&& final(alloc).cursor() == fresh
                    &&& if entry_huge(entry) {
                        step == Err::<Step, MapError>(MapError::HugePage)
                    } else {
                        step matches Ok(Step::Found(next)) && next.base() == entry_addr(entry)
                    }
                } else if frame_ready(old(mem)@, fresh, 0) {
                    &&& step matches Ok(Step::Created(next))
                    &&& next.base() == fresh
                    &&& linked(old(mem)@, final(mem)@, table.base(), index, fresh)
                    &&& final(alloc).cursor() == fresh + 4096
                } else {
                    &&& step == Err::<Step, MapError>(MapError::OutOfFrames)
                    &&& final(mem)@ == old(mem)@
                    &&& final(alloc).cursor() == fresh
                }
            }),
    {
        let entry = table.entry(mem, index);
        if entry.is_present() {
            if entry.is_huge() {
                return Err(MapError::HugePage);
            }
            return Ok(Step::Found(PageTable::new(entry.addr())));
        }
        let fresh = alloc.peek();
        if fresh >= MAX_PHYS_ADDR || !mem.backs_frame(fresh) {
            return Err(MapError::OutOfFrames);
        }
        match alloc.allocate(1) {
            Ok(_) => {},
            Err(_) => {
                return Err(MapError::OutOfFrames);
            },
        }
        mem.zero_frame(fresh);
        table.set_entry(mem, index, PageTableEntry::new(fresh, TABLE_FLAGS));
        Ok(Step::Created(PageTable::new(fresh)))
    }
}

/// Whether, of the tables that the walk of `virt` lacked in `before`, those
/// from the PDP down to `level` have been created from the frames at
/// `cursor`, with the walk now standing at `table`, and nothing else has
/// changed.
spec fn walked(
    before: Map<u64, u64>,
    cursor: u64,
    root: u64,
    virt: u64,
    level: int,
    now: Map<u64, u64>,
    new_cursor: u64,
    table: u64,
) -> bool {
    let wanted = missing_tables(before, root, virt) as int;
    let made = if wanted >= level {
        wanted - level + 1
    } else {
        0
    };
    &&& tables_wf(now, root, new_cursor)
    &&& cursor <= new_cursor
    &&& now.dom() == before.dom()
    &&& tables_kept(before, now, root)
    &&& only_tables_touched(before, now, root, cursor, new_cursor)
    &&& table_of(now, root, virt, level) == Some(table)
    &&& forall|v: u64| #[trigger] leaf_of(now, root, v) == leaf_of(before, root, v)
    &&& new_cursor == cursor + 4096 * made
    &&& forall|n: int| 0 <= n < made ==> frame_ready(before, cursor, n)
    &&& made == 0 ==> now == before
    &&& made > 0 ==> forall|i: u16| i < 512 ==> #[trigger] entry_at(now, table, i) == 0
    &&& !huge_above(before, root, virt, level)
}

/// Whether a huge page stands on the walk of `virt` in a table above
/// `level`.
spec fn huge_above(mem: Map<u64, u64>, root: u64, virt: u64, level: int) -> bool {
    ||| level <= 3 && {
        let entry = entry_at(mem, root, pml4_index_of(virt));
        entry_present(entry) && entry_huge(entry)
    }
    ||| level <= 2 && {
        &&& pdp_of(mem, root, virt) matches Some(table)
        &&& entry_present(entry_at(mem, table, pdp_index_of(virt)))
        &&& entry_huge(entry_at(mem, table, pdp_index_of(virt)))
    }
    ||| level <= 1 && {
        &&& pd_of(mem, root, virt) matches Some(table)
        &&& entry_present(entry_at(mem, table, pd_index_of(virt)))
        &&& entry_huge(entry_at(mem, table, pd_index_of(virt)))
    }
}

/// The number of tables created when the walk that lacked `wanted` tables
/// stands at `level`.
spec fn made_at(wanted: int, level: int) -> int {
    if wanted >= level {
        wanted - level + 1
    } else {
        0
    }
}

/// Whether a mapping of the page of `virt` has failed with `error`, as
/// `map_post` says it fails.
spec fn map_failed(
    before: Map<u64, u64>,
    cursor: u64,
    root: u64,
    virt: u64,
    error: MapError,
    after: Map<u64, u64>,
    new_cursor: u64,
) -> bool {
    let wanted = missing_tables(before, root, virt);
    let made = tables_created(before, cursor, wanted);
    &&& after.dom() == before.dom()
    &&& tables_kept(before, after, root)
    &&& only_tables_touched(before, after, root, cursor, new_cursor)
    &&& if path_huge(before, root, virt) {
        &&& error == MapError::HugePage
        &&& after == before
        &&& new_cursor == cursor
    } else {
        &&& new_cursor == cursor + 4096 * made
        &&& tables_wf(after, root, new_cursor)
        &&& made != wanted
        &&& error == MapError::OutOfFrames
        &&& forall|v: u64| #[trigger] leaf_of(after, root, v) == leaf_of(before, root, v)
    }
}

proof fn lemma_step_found(
    before: Map<u64, u64>,
    cursor: u64,
    root: u64,
    virt: u64,
    level: int,
    now: Map<u64, u64>,
    new_cursor: u64,
    table: u64,
)
    requires
        1 <= level <= 3,
        walked(before, cursor, root, virt, level + 1, now, new_cursor, table),
        entry_present(entry_at(now, table, index_of(virt, level + 1))),
        !entry_huge(entry_at(now, table, index_of(virt, level + 1))),
    ensures
        walked(
            before,
            cursor,
            root,
            virt,
            level,
            now,
            new_cursor,
            entry_addr(entry_at(now, table, index_of(virt, level + 1))),
        ),
{
    lemma_known_flags();
    let wanted = missing_tables(before, root, virt) as int;
    let index = index_of(virt, level + 1);
    assert(index < 512);
    if made_at(wanted, level + 1) > 0 {
        assert(entry_at(now, table, index) == 0);
        assert(false);
    }
    assert(now == before);
    assert(table_of(now, root, virt, level) == child(now, table, index));
}

proof fn lemma_step_created(
    before: Map<u64, u64>,
    cursor: u64,
    root: u64,
    virt: u64,
    level: int,
    now: Map<u64, u64>,
    new_cursor: u64,
    table: u64,
    after: Map<u64, u64>,
)
    requires
        1 <= level <= 3,
        walked(before, cursor, root, virt, level + 1, now, new_cursor, table),
        !entry_present(entry_at(now, table, index_of(virt, level + 1))),
        frame_ready(now, new_cursor, 0),
        linked(now, after, table, index_of(virt, level + 1), new_cursor),
    ensures
        walked(
            before,
            cursor,
            root,
            virt,
            level,
            after,
            (new_cursor + 4096) as u64,
            new_cursor,
        ),
{
    lemma_known_flags();
    let wanted = missing_tables(before, root, virt) as int;
    let index = index_of(virt, level + 1);
    let next_cursor = (new_cursor + 4096) as u64;
    assert(frame_addr(new_cursor));
    lemma_link(now, after, root, new_cursor, virt, level, table, new_cursor, next_cursor);
    assert(table_of(after, root, virt, level) == crate::walk::linked_table_of(
        now,
        root,
        virt,
        level,
        new_cursor,
        virt,
        level,
    ));
    assert forall|v: u64| #[trigger] leaf_of(after, root, v) == leaf_of(before, root, v) by {
        assert(leaf_of(after, root, v) == leaf_of(now, root, v));
    }
    assert(table_of(now, root, virt, level) is None) by {
        assert(table_of(now, root, virt, level) == child(now, table, index));
    }
    assert forall|v: u64, l: int|
        1 <= l <= 4 && table_of(before, root, v, l) is Some implies #[trigger] table_of(
            after,
            root,
            v,
            l,
        ) == table_of(before, root, v, l) by {
        assert(table_of(now, root, v, l) == table_of(before, root, v, l));
        assert(table_of(after, root, v, l) == crate::walk::linked_table_of(
            now,
            root,
            virt,
            level,
            new_cursor,
            v,
            l,
        ));
        if l == level && crate::walk::prefix_of(v, level) == crate::walk::prefix_of(virt, level) {
            crate::walk::lemma_same_prefix(now, root, v, virt, level);
        }
    }
    assert(frame_addr(table) && table < new_cursor) by {
        assert(table_of(now, root, virt, level + 1) is Some);
    }
    lemma_touched_by_link(before, cursor, root, virt, level, now, new_cursor, table, after);
    if made_at(wanted, level + 1) == 0 {
        assert(now == before);
        assert(table_of(before, root, virt, level) == child(before, table, index));
        assert(table_of(before, root, virt, level) is None);
    }
    assert(wanted >= level);
    assert(made_at(wanted, level) == made_at(wanted, level + 1) + 1);
    assert forall|n: int| 0 <= n < made_at(wanted, level) implies frame_ready(
        before,
        cursor,
        n,
    ) by {
        if n == made_at(wanted, level + 1) {
            assert((cursor + 4096 * n) as u64 == new_cursor);
        }
    }
}

/// Writing a word of a table, old or fresh, touches nothing but tables.
proof fn lemma_touched_by_word(
    before: Map<u64, u64>,
    now: Map<u64, u64>,
    after: Map<u64, u64>,
    root: u64,
    cursor: u64,
    new_cursor: u64,
    table: u64,
    index: u16,
    entry: u64,
)
    requires
        others_kept(before, now, root, cursor, new_cursor),
        frame_addr(table),
        index < 512,
        new_cursor % 4096 == 0,
        is_table(before, root, table) || cursor <= table < new_cursor,
        after == now.insert(crate::walk::slot(table, index), entry),
    ensures
        others_kept(before, after, root, cursor, new_cursor),
{
    let place = crate::walk::slot(table, index);
    assert(frame_of(place) == table);
    assert forall|addr: u64|
        before.dom().contains(addr) && !(cursor <= addr < new_cursor) && !is_table(
            before,
            root,
            frame_of(addr),
        ) implies #[trigger] after[addr] == before[addr] by {
        assert(now[addr] == before[addr]);
        assert(addr != place);
    }
}

/// Zeroing a fresh frame touches nothing but that frame.
proof fn lemma_touched_by_zeroing(
    before: Map<u64, u64>,
    now: Map<u64, u64>,
    after: Map<u64, u64>,
    root: u64,
    cursor: u64,
    new_cursor: u64,
)
    requires
        others_kept(before, now, root, cursor, new_cursor),
        cursor <= new_cursor,
        new_cursor + 4096 <= u64::MAX,
        now.dom() == before.dom(),
        after == crate::phys_mem::zeroed(now, new_cursor),
    ensures
        others_kept(before, after, root, cursor, (new_cursor + 4096) as u64),
{
    assert forall|addr: u64|
        before.dom().contains(addr) && !(cursor <= addr < new_cursor + 4096) && !is_table(
            before,
            root,
            frame_of(addr),
        ) implies #[trigger] after[addr] == before[addr] by {
        assert(now[addr] == before[addr]);
    }
}

/// Where fresh tables come in at the cursor only, every table is an old
/// one or a fresh one.
proof fn lemma_tables_from_link(
    before: Map<u64, u64>,
    now: Map<u64, u64>,
    after: Map<u64, u64>,
    root: u64,
    virt: u64,
    level: int,
    cursor: u64,
    new_cursor: u64,
)
    requires
        tables_from(before, now, root, cursor, new_cursor),
        cursor <= new_cursor,
        new_cursor + 4096 <= u64::MAX,
        forall|v: u64, l: int|
            1 <= l <= 4 ==> #[trigger] table_of(after, root, v, l) == crate::walk::linked_table_of(
                now,
                root,
                virt,
                level,
                new_cursor,
                v,
                l,
            ),
    ensures
        tables_from(before, after, root, cursor, (new_cursor + 4096) as u64),
{
    assert forall|v: u64, l: int| 1 <= l <= 4 implies match #[trigger] table_of(after, root, v, l) {
        Some(t) => is_table(before, root, t) || cursor <= t < new_cursor + 4096,
        None => true,
    } by {
        assert(table_of(after, root, v, l) == crate::walk::linked_table_of(
            now,
            root,
            virt,
            level,
            new_cursor,
            v,
            l,
        ));
        let old_table = table_of(now, root, v, l);
    }
}

/// Linking a fresh table in touches nothing but the fresh frame and the
/// table that it is linked into.
proof fn lemma_touched_by_link(
    before: Map<u64, u64>,
    cursor: u64,
    root: u64,
    virt: u64,
    level: int,
    now: Map<u64, u64>,
    new_cursor: u64,
    table: u64,
    after: Map<u64, u64>,
)
    requires
        1 <= level <= 3,
        frame_addr(table),
        table < new_cursor,
        new_cursor % 4096 == 0,
        cursor <= new_cursor,
        new_cursor + 4096 <= MAX_PHYS_ADDR,
        now.dom() == before.dom(),
        only_tables_touched(before, now, root, cursor, new_cursor),
        table_of(now, root, virt, level + 1) == Some(table),
        linked(now, after, table, index_of(virt, level + 1), new_cursor),
        forall|v: u64, l: int|
            1 <= l <= 4 ==> #[trigger] table_of(after, root, v, l) == crate::walk::linked_table_of(
                now,
                root,
                virt,
                level,
                new_cursor,
                v,
                l,
            ),
    ensures
        only_tables_touched(before, after, root, cursor, (new_cursor + 4096) as u64),
{
    let index = index_of(virt, level + 1);
    let end = (new_cursor + 4096) as u64;
    let zero = crate::phys_mem::zeroed(now, new_cursor);
    assert(is_table(before, root, table) || cursor <= table < new_cursor) by {
        assert(table_of(now, root, virt, level + 1) is Some);
    }
    lemma_touched_by_zeroing(before, now, zero, root, cursor, new_cursor);
    lemma_touched_by_word(
        before,
        zero,
        after,
        root,
        cursor,
        end,
        table,
        index,
        (new_cursor | TABLE_FLAGS),
    );
    lemma_tables_from_link(before, now, after, root, virt, level, cursor, new_cursor);
}

proof fn lemma_step_failed(
    before: Map<u64, u64>,
    cursor: u64,
    root: u64,
    virt: u64,
    level: int,
    now: Map<u64, u64>,
    new_cursor: u64,
    table: u64,
    error: MapError,
)
    requires
        1 <= level <= 3,
        walked(before, cursor, root, virt, level + 1, now, new_cursor, table),
        ({
            let entry = entry_at(now, table, index_of(virt, level + 1));
            if entry_present(entry) {
                entry_huge(entry) && error == MapError::HugePage
            } else {
                !frame_ready(now, new_cursor, 0) && error == MapError::OutOfFrames
            }
        }),
    ensures
        map_failed(before, cursor, root, virt, error, now, new_cursor),
{
    lemma_known_flags();
    let wanted = missing_tables(before, root, virt) as int;
    let index = index_of(virt, level + 1);
    let entry = entry_at(now, table, index);
    let made = made_at(wanted, level + 1);
    assert(index < 512);
    if entry_present(entry) {
        if made > 0 {
            assert(entry_at(now, table, index) == 0);
            assert(false);
        }
        assert(now == before);
        assert(path_huge(before, root, virt));
    } else {
        if made == 0 {
            assert(now == before);
            assert(table_of(before, root, virt, level) == child(before, table, index));
            assert(table_of(before, root, virt, level) is None);
        }
        assert(wanted >= level);
        assert(!frame_ready(before, cursor, made)) by {
            assert((cursor + 4096 * made) as u64 == new_cursor);
        }
        assert(tables_created(before, cursor, wanted as nat) == made);
        assert(!path_huge(before, root, virt));
    }
}

/// Whether the memory `now`, with the walk standing at `table` on `level`,
/// holds word for word what creating the tables down to that level gives.
spec fn words_at(
    before: Map<u64, u64>,
    cursor: u64,
    root: u64,
    virt: u64,
    level: int,
    now: Map<u64, u64>,
    table: u64,
) -> bool {
    let wanted = missing_tables(before, root, virt) as int;
    &&& now == tables_linked(before, cursor, root, virt, made_at(wanted, level) as nat)
    &&& table == table_on(before, cursor, root, virt, level)
}

/// The memory once a mapping has failed: as it was where a huge page is in
/// the way, and else with the tables that could be created.
spec fn words_failed(before: Map<u64, u64>, cursor: u64, root: u64, virt: u64) -> Map<u64, u64> {
    if path_huge(before, root, virt) {
        before
    } else {
        tables_linked(
            before,
            cursor,
            root,
            virt,
            tables_created(before, cursor, missing_tables(before, root, virt)),
        )
    }
}

proof fn lemma_words_found(
    before: Map<u64, u64>,
    cursor: u64,
    root: u64,
    virt: u64,
    level: int,
    now: Map<u64, u64>,
    new_cursor: u64,
    table: u64,
)
    requires
        1 <= level <= 3,
        walked(before, cursor, root, virt, level + 1, now, new_cursor, table),
        words_at(before, cursor, root, virt, level + 1, now, table),
        entry_present(entry_at(now, table, index_of(virt, level + 1))),
        !entry_huge(entry_at(now, table, index_of(virt, level + 1))),
    ensures
        words_at(
            before,
            cursor,
            root,
            virt,
            level,
            now,
            entry_addr(entry_at(now, table, index_of(virt, level + 1))),
        ),
{
    lemma_step_found(before, cursor, root, virt, level, now, new_cursor, table);
    let wanted = missing_tables(before, root, virt) as int;
    let found = entry_addr(entry_at(now, table, index_of(virt, level + 1)));
    assert(new_cursor == cursor + 4096 * made_at(wanted, level + 1));
    assert(new_cursor == cursor + 4096 * made_at(wanted, level));
    assert(made_at(wanted, level) == 0);
    assert(now == before);
    assert(table_of(before, root, virt, level) == Some(found));
}

proof fn lemma_words_created(
    before: Map<u64, u64>,
    cursor: u64,
    root: u64,
    virt: u64,
    level: int,
    now: Map<u64, u64>,
    new_cursor: u64,
    table: u64,
    after: Map<u64, u64>,
)
    requires
        1 <= level <= 3,
        walked(before, cursor, root, virt, level + 1, now, new_cursor, table),
        words_at(before, cursor, root, virt, level + 1, now, table),
        !entry_present(entry_at(now, table, index_of(virt, level + 1))),
        frame_ready(now, new_cursor, 0),
        linked(now, after, table, index_of(virt, level + 1), new_cursor),
    ensures
        words_at(before, cursor, root, virt, level, after, new_cursor),
{
    lemma_step_created(before, cursor, root, virt, level, now, new_cursor, table, after);
    let wanted = missing_tables(before, root, virt) as int;
    let made = made_at(wanted, level);
    assert(new_cursor == cursor + 4096 * made_at(wanted, level + 1));
    assert(new_cursor + 4096 == cursor + 4096 * made);
    assert(made == made_at(wanted, level + 1) + 1);
    assert(wanted >= level);
    assert(wanted - made + 1 == level);
    assert((cursor + 4096 * (made - 1)) as u64 == new_cursor);
    assert(tables_linked(before, cursor, root, virt, made as nat) == zeroed(
        tables_linked(before, cursor, root, virt, (made - 1) as nat),
        new_cursor,
    ).insert(
        slot(table_on(before, cursor, root, virt, level + 1), index_of(virt, level + 1)),
        (new_cursor | TABLE_FLAGS),
    ));
}

proof fn lemma_words_failed(
    before: Map<u64, u64>,
    cursor: u64,
    root: u64,
    virt: u64,
    level: int,
    now: Map<u64, u64>,
    new_cursor: u64,
    table: u64,
    error: MapError,
)
    requires
        1 <= level <= 3,
        walked(before, cursor, root, virt, level + 1, now, new_cursor, table),
        words_at(before, cursor, root, virt, level + 1, now, table),
        ({
            let entry = entry_at(now, table, index_of(virt, level + 1));
            if entry_present(entry) {
                entry_huge(entry) && error == MapError::HugePage
            } else {
                !frame_ready(now, new_cursor, 0) && error == MapError::OutOfFrames
            }
        }),
    ensures
        now == words_failed(before, cursor, root, virt),
{
    lemma_step_failed(before, cursor, root, virt, level, now, new_cursor, table, error);
    let wanted = missing_tables(before, root, virt) as int;
    if !path_huge(before, root, virt) {
        let made = tables_created(before, cursor, wanted as nat);
        assert(new_cursor == cursor + 4096 * made);
        assert(new_cursor == cursor + 4096 * made_at(wanted, level + 1));
        assert(made == made_at(wanted, level + 1));
    }
}

/// A mapping that has failed leaves the memory as `mapped` says.
proof fn lemma_words_failed_post(
    before: Map<u64, u64>,
    cursor: u64,
    root: u64,
    virt: u64,
    word: u64,
    error: MapError,
    after: Map<u64, u64>,
    new_cursor: u64,
)
    requires
        map_failed(before, cursor, root, virt, error, after, new_cursor),
        after == words_failed(before, cursor, root, virt),
    ensures
        after == mapped(before, cursor, root, virt, word),
{
}

/// A mapping that has succeeded leaves the memory as `mapped` says, with
/// the entry at its place in the PT.
proof fn lemma_words_end(
    before: Map<u64, u64>,
    cursor: u64,
    root: u64,
    virt: u64,
    word: u64,
    now: Map<u64, u64>,
    new_cursor: u64,
    table: u64,
    after: Map<u64, u64>,
)
    requires
        walked(before, cursor, root, virt, 1, now, new_cursor, table),
        words_at(before, cursor, root, virt, 1, now, table),
        after == now.insert(slot(table, pt_index_of(virt)), word),
    ensures
        after == mapped(before, cursor, root, virt, word),
        entry_at(after, table, pt_index_of(virt)) == word,
{
    let wanted = missing_tables(before, root, virt) as int;
    assert(made_at(wanted, 1) == wanted);
    assert(tables_created(before, cursor, wanted as nat) == wanted);
    assert(!path_huge(before, root, virt));
    assert(frame_addr(table) && frame_backed(now, table)) by {
        assert(table_of(now, root, virt, 1) is Some);
    }
    assert(pt_index_of(virt) < 512);
    assert(now.dom().contains(slot(table, pt_index_of(virt))));
}

impl Mapper {
    /// One step of the walk of `virt` for a mapping: from the table at
    /// `level + 1` to the table at `level`, created if it is not there.
    fn step(
        &self,
        mem: &mut PhysMemory,
        alloc: &mut BumpAllocator,
        table: PageTable,
        virt: u64,
        index: u16,
        Ghost(level): Ghost<int>,
        Ghost(before): Ghost<Map<u64, u64>>,
        Ghost(cursor): Ghost<u64>,
    ) -> (next: Result<PageTable, MapError>)
        requires
            old(mem).wf(),
            1 <= level <= 3,
            index == index_of(virt, level + 1),
            walked(
                before,
                cursor,
                self.root(),
                virt,
                level + 1,
                old(mem)@,
                old(alloc).cursor(),
                table.base(),
            ),
            words_at(before, cursor, self.root(), virt, level + 1, old(mem)@, table.base()),
        ensures
            final(mem).wf(),
            match next {
                Ok(found) => {
                    &&& walked(
                        before,
                        cursor,
                        self.root(),
                        virt,
                        level,
                        final(mem)@,
                        final(alloc).cursor(),
                        found.base(),
                    )
                    &&& words_at(
                        before,
                        cursor,
                        self.root(),
                        virt,
                        level,
                        final(mem)@,
                        found.base(),
                    )
                },
                Err(error) => {
                    &&& map_failed(
                        before,
                        cursor,
                        self.root(),
                        virt,
                        error,
                        final(mem)@,
                        final(alloc).cursor(),
                    )
                    &&& final(mem)@ == words_failed(before, cursor, self.root(), virt)
                },
            },
    {
        let ghost root = self.root();
        let ghost m1 = mem@;
        let ghost c1 = alloc.cursor();
        proof {
            assert(table_of(m1, root, virt, level + 1) is Some);
        }
        let step = Self::descend(mem, alloc, table, index);
        match step {
            Ok(Step::Found(found)) => {
                proof {
                    lemma_step_found(before, cursor, root, virt, level, m1, c1, table.base());
                    lemma_words_found(before, cursor, root, virt, level, m1, c1, table.base());
                }
                Ok(found)
            },
            Ok(Step::Created(made)) => {
                proof {
                    lemma_step_created(
                        before,
                        cursor,
                        root,
                        virt,
                        level,
                        m1,
                        c1,
                        table.base(),
                        mem@,
                    );
                    lemma_words_created(
                        before,
                        cursor,
                        root,
                        virt,
                        level,
                        m1,
                        c1,
                        table.base(),
                        mem@,
                    );
                }
                Ok(made)
            },
            Err(error) => {
                proof {
                    lemma_step_failed(
                        before,
                        cursor,
                        root,
                        virt,
                        level,
                        m1,
                        c1,
                        table.base(),
                        error,
                    );
                    lemma_words_failed(
                        before,
                        cursor,
                        root,
                        virt,
                        level,
                        m1,
                        c1,
                        table.base(),
                        error,
                    );
                }
                Err(error)
            },
        }
    }
}

proof fn lemma_walk_start(before: Map<u64, u64>, cursor: u64, root: u64, virt: u64)
    requires
        tables_wf(before, root, cursor),
    ensures
        walked(before, cursor, root, virt, 4, before, cursor, root),
{
    lemma_untouched(before, root, cursor);
}

/// A memory that is as it was has nothing touched.
pub proof fn lemma_untouched(mem: Map<u64, u64>, root: u64, cursor: u64)
    ensures
        only_tables_touched(mem, mem, root, cursor, cursor),
{
    assert forall|v: u64, l: int| 1 <= l <= 4 implies match #[trigger] table_of(mem, root, v, l) {
        Some(table) => is_table(mem, root, table) || cursor <= table < cursor,
        None => true,
    } by {
        if table_of(mem, root, v, l) is Some {
            lemma_is_table(mem, root, v, l);
        }
    }
}

proof fn lemma_failed_post(
    before: Map<u64, u64>,
    cursor: u64,
    root: u64,
    virt: u64,
    phys: u64,
    flags: u64,
    error: MapError,
    after: Map<u64, u64>,
    new_cursor: u64,
)
    requires
        map_failed(before, cursor, root, virt, error, after, new_cursor),
    ensures
        map_post(
            before,
            cursor,
            root,
            virt,
            phys,
            flags,
            Err::<(), MapError>(error),
            after,
            new_cursor,
        ),
{
}

/// Setting a leaf touches nothing but the PT that holds it.
proof fn lemma_touched_by_leaf(
    before: Map<u64, u64>,
    cursor: u64,
    root: u64,
    virt: u64,
    now: Map<u64, u64>,
    new_cursor: u64,
    table: u64,
    entry: u64,
    after: Map<u64, u64>,
)
    requires
        frame_addr(table),
        new_cursor % 4096 == 0,
        only_tables_touched(before, now, root, cursor, new_cursor),
        table_of(now, root, virt, 1) == Some(table),
        after == now.insert(crate::walk::slot(table, pt_index_of(virt)), entry),
        forall|v: u64, l: int|
            1 <= l <= 4 ==> #[trigger] table_of(after, root, v, l) == table_of(now, root, v, l),
    ensures
        only_tables_touched(before, after, root, cursor, new_cursor),
{
    assert(is_table(before, root, table) || cursor <= table < new_cursor) by {
        assert(table_of(now, root, virt, 1) is Some);
    }
    lemma_touched_by_word(
        before,
        now,
        after,
        root,
        cursor,
        new_cursor,
        table,
        pt_index_of(virt),
        entry,
    );
    assert forall|v: u64, l: int| 1 <= l <= 4 implies match #[trigger] table_of(after, root, v, l) {
        Some(t) => is_table(before, root, t) || cursor <= t < new_cursor,
        None => true,
    } by {
        assert(table_of(after, root, v, l) == table_of(now, root, v, l));
    }
}

proof fn lemma_walk_end(
    before: Map<u64, u64>,
    cursor: u64,
    root: u64,
    virt: u64,
    phys: u64,
    flags: u64,
    now: Map<u64, u64>,
    new_cursor: u64,
    table: u64,
    after: Map<u64, u64>,
)
    requires
        walked(before, cursor, root, virt, 1, now, new_cursor, table),
        after == now.insert(crate::walk::slot(table, pt_index_of(virt)), (phys | flags)),
    ensures
        map_post(
            before,
            cursor,
            root,
            virt,
            phys,
            flags,
            Ok::<(), MapError>(()),
            after,
            new_cursor,
        ),
{
    let wanted = missing_tables(before, root, virt) as int;
    assert(table_of(now, root, virt, 1) == Some(table));
    lemma_set_leaf(now, after, root, new_cursor, virt, table, (phys | flags));
    assert(made_at(wanted, 1) == wanted);
    assert(tables_created(before, cursor, wanted as nat) == wanted);
    assert forall|v: u64, l: int|
        1 <= l <= 4 && table_of(before, root, v, l) is Some implies #[trigger] table_of(
            after,
            root,
            v,
            l,
        ) == table_of(before, root, v, l) by {
        assert(table_of(now, root, v, l) == table_of(before, root, v, l));
    }
    assert(table_of(after, root, virt, 1) == table_of(now, root, virt, 1));
    assert(frame_addr(table)) by {
        assert(table_of(now, root, virt, 1) is Some);
    }
    lemma_touched_by_leaf(
        before,
        cursor,
        root,
        virt,
        now,
        new_cursor,
        table,
        (phys | flags),
        after,
    );
    assert(!path_huge(before, root, virt));
    assert forall|v: u64| #[trigger]
        leaf_of(after, root, v) == leaf_set(before, root, virt, (phys | flags), v) by {
        assert(leaf_of(after, root, v) == leaf_set(now, root, virt, (phys | flags), v));
        assert(leaf_of(now, root, v) == leaf_of(before, root, v));
    }
}

impl Mapper {
    /// Maps a virtual address to a physical address, allocating space for
    /// new page tables as necessary. Both addresses must be multiples of
    /// the page size. Any mapping that the page has already is overwritten.
    ///
    /// The memory afterwards is `mapped`, word for word: each table that
    /// the walk lacked is a zeroed frame, linked into the table above it
    /// with the present and the writable bit; the entry `phys | flags`
    /// stands at the place of `virt` in the PT; no other word has changed.
    /// What this means for the translation of every address is `map_post`.
    ///
    /// There are no huge pages on this path: where the walk meets one, the
    /// request is refused with `HugePage` and nothing is written.
    pub fn map(
        &self,
        mem: &mut PhysMemory,
        alloc: &mut BumpAllocator,
        virt: u64,
        phys: u64,
        flags: u64,
    ) -> (result: Result<(), MapError>)
        requires
            self.wf(old(mem), old(alloc)),
            virt % 4096 == 0,
            phys % 4096 == 0,
        ensures
            final(mem).wf(),
            final(mem)@ == mapped(
                old(mem)@,
                old(alloc).cursor(),
                self.root(),
                virt,
                (phys | flags),
            ),
            result is Ok ==> pt_of(final(mem)@, self.root(), virt) == Some(
                table_on(old(mem)@, old(alloc).cursor(), self.root(), virt, 1),
            ) && entry_at(
                final(mem)@,
                table_on(old(mem)@, old(alloc).cursor(), self.root(), virt, 1),
                pt_index_of(virt),
            ) == (phys | flags),
            map_post(
                old(mem)@,
                old(alloc).cursor(),
                self.root(),
                virt,
                phys,
                flags,
                result,
                final(mem)@,
                final(alloc).cursor(),
            ),
    {
        let ghost before = mem@;
        let ghost cursor = alloc.cursor();
        let ghost root = self.root();
        let virt_addr = VirtAddr::new(virt);
        proof {
            lemma_walk_start(before, cursor, root, virt);
            assert(words_at(before, cursor, root, virt, 4, before, root));
        }
        let pdp = match self.step(
            mem,
            alloc,
            self.pml4,
            virt,
            virt_addr.pml4_index(),
            Ghost(3),
            Ghost(before),
            Ghost(cursor),
        ) {
            Ok(table) => table,
            Err(error) => {
                proof {
                    lemma_failed_post(
                        before,
                        cursor,
                        root,
                        virt,
                        phys,
                        flags,
                        error,
                        mem@,
                        alloc.cursor(),
                    );
                    lemma_words_failed_post(
                        before,
                        cursor,
                        root,
                        virt,
                        (phys | flags),
                        error,
                        mem@,
                        alloc.cursor(),
                    );
                }
                return Err(error);
            },
        };
        let pd = match self.step(
            mem,
            alloc,
            pdp,
            virt,
            virt_addr.pdp_index(),
            Ghost(2),
            Ghost(before),
            Ghost(cursor),
        ) {
            Ok(table) => table,
            Err(error) => {
                proof {
                    lemma_failed_post(
                        before,
                        cursor,
                        root,
                        virt,
                        phys,
                        flags,
                        error,
                        mem@,
                        alloc.cursor(),
                    );
                    lemma_words_failed_post(
                        before,
                        cursor,
                        root,
                        virt,
                        (phys | flags),
                        error,
                        mem@,
                        alloc.cursor(),
                    );
                }
                return Err(error);
            },
        };
        let pt = match self.step(
            mem,
            alloc,
            pd,
            virt,
            virt_addr.pd_index(),
            Ghost(1),
            Ghost(before),
            Ghost(cursor),
        ) {
            Ok(table) => table,
            Err(error) => {
                proof {
                    lemma_failed_post(
                        before,
                        cursor,
                        root,
                        virt,
                        phys,
                        flags,
                        error,
                        mem@,
                        alloc.cursor(),
                    );
                    lemma_words_failed_post(
                        before,
                        cursor,
                        root,
                        virt,
                        (phys | flags),
                        error,
                        mem@,
                        alloc.cursor(),
                    );
                }
                return Err(error);
            },
        };
        let ghost now = mem@;
        proof {
            assert(table_of(now, root, virt, 1) is Some);
        }
        pt.set_entry(mem, virt_addr.pt_index(), PageTableEntry::new(phys, flags));
        proof {
            lemma_walk_end(
                before,
                cursor,
                root,
                virt,
                phys,
                flags,
                now,
                alloc.cursor(),
                pt.base(),
                mem@,
            );
            lemma_words_end(
                before,
                cursor,
                root,
                virt,
                (phys | flags),
                now,
                alloc.cursor(),
                pt.base(),
                mem@,
            );
            assert(pt_of(mem@, root, virt) == Some(pt.base())) by {
                lemma_set_leaf(now, mem@, root, alloc.cursor(), virt, pt.base(), (phys | flags));
                assert(table_of(mem@, root, virt, 1) == table_of(now, root, virt, 1));
            }
        }
        Ok(())
    }

    /// Entry `index` of the table at `table`, as the walk reads it.
    fn entry_of(mem: &PhysMemory, table: u64, index: u16) -> (entry: PageTableEntry)
        requires
            mem.wf(),
            index < 512,
        ensures
            entry@ == entry_at(mem@, table, index),
    {
        if table % 4096 != 0 || table >= MAX_PHYS_ADDR {
            return PageTableEntry::from_data(0);
        }
        match PageTableEntry::read(mem, table + 8 * index as u64) {
            Some(entry) => entry,
            None => PageTableEntry::from_data(0),
        }
    }

    /// The entry that maps `virt`, with the level of the table it stands
    /// in (1 for a 4 KiB page, 2 for 2 MiB, 3 for 1 GiB), if `virt` is
    /// mapped.
    pub fn lookup(&self, mem: &PhysMemory, virt: u64) -> (found: Option<(PageTableEntry, u8)>)
        requires
            mem.wf(),
        ensures
            match leaf_of(mem@, self.root(), virt) {
                Some((entry, level)) => found matches Some((e, l)) && e@ == entry && l == level,
                None => found is None,
            },
    {
        let virt_addr = VirtAddr::new(virt);
        let pml4_entry = Self::entry_of(mem, self.pml4.addr(), virt_addr.pml4_index());
        if !pml4_entry.is_present() || pml4_entry.is_huge() {
            return None;
        }
        let pdp_entry = Self::entry_of(mem, pml4_entry.addr(), virt_addr.pdp_index());
        if !pdp_entry.is_present() {
            return None;
        }
        if pdp_entry.is_huge() {
            return Some((pdp_entry, 3));
        }
        let pd_entry = Self::entry_of(mem, pdp_entry.addr(), virt_addr.pd_index());
        if !pd_entry.is_present() {
            return None;
        }
        if pd_entry.is_huge() {
            return Some((pd_entry, 2));
        }
        let pt_entry = Self::entry_of(mem, pd_entry.addr(), virt_addr.pt_index());
        if !pt_entry.is_present() {
            return None;
        }
        Some((pt_entry, 1))
    }

    /// The number of tables that a mapping of the page of `virt` would have
    /// to create, or the refusal that it would meet where a huge page is in
    /// the way.
    pub fn missing(&self, mem: &PhysMemory, virt: u64) -> (count: Result<usize, MapError>)
        requires
            mem.wf(),
        ensures
            path_huge(mem@, self.root(), virt) ==> count == Err::<usize, MapError>(
                MapError::HugePage,
            ),
            !path_huge(mem@, self.root(), virt) ==> count == Ok::<usize, MapError>(
                missing_tables(mem@, self.root(), virt) as usize,
            ),
    {
        let virt_addr = VirtAddr::new(virt);
        let pml4_entry = Self::entry_of(mem, self.pml4.addr(), virt_addr.pml4_index());
        if !pml4_entry.is_present() {
            return Ok(3);
        }
        if pml4_entry.is_huge() {
            return Err(MapError::HugePage);
        }
        let pdp_entry = Self::entry_of(mem, pml4_entry.addr(), virt_addr.pdp_index());
        if !pdp_entry.is_present() {
            return Ok(2);
        }
        if pdp_entry.is_huge() {
            return Err(MapError::HugePage);
        }
        let pd_entry = Self::entry_of(mem, pdp_entry.addr(), virt_addr.pd_index());
        if !pd_entry.is_present() {
            return Ok(1);
        }
        if pd_entry.is_huge() {
            return Err(MapError::HugePage);
        }
        Ok(0)
    }

    /// Translates a virtual address into its corresponding physical
    /// address: the address that the processor would use, huge pages
    /// included. Fails if no mapping covers the address.
    pub fn translate(&self, mem: &PhysMemory, virt: u64) -> (result: Result<u64, TranslateError>)
        requires
            mem.wf(),
        ensures
            result == match translate_spec(mem@, self.root(), virt) {
                Some(phys) => Ok::<u64, TranslateError>(phys),
                None => Err::<u64, TranslateError>(TranslateError::NotMapped),
            },
    {
        match self.lookup(mem, virt) {
            Some((entry, level)) => {
                let size: u64 = if level == 3 {
                    0x4000_0000
                } else if level == 2 {
                    0x20_0000
                } else {
                    0x1000
                };
                let base = entry.addr();
                Ok(base - base % size + virt % size)
            },
            None => Err(TranslateError::NotMapped),
        }
    }
}

/// The table at `level` on the walk of `virt`, as `table_on` gives it, is
/// a frame of the memory, and apart from the table above it.
proof fn lemma_table_on(before: Map<u64, u64>, cursor: u64, root: u64, virt: u64, level: int)
    requires
        tables_wf(before, root, cursor),
        1 <= level <= 4,
        missing_tables(before, root, virt) - tables_created(
            before,
            cursor,
            missing_tables(before, root, virt),
        ) < level,
    ensures
        frame_addr(table_on(before, cursor, root, virt, level)),
        frame_backed(before, table_on(before, cursor, root, virt, level)),
        level > missing_tables(before, root, virt) ==> table_on(before, cursor, root, virt, level)
            < cursor && table_of(before, root, virt, level) == Some(
            table_on(before, cursor, root, virt, level),
        ),
        level <= missing_tables(before, root, virt) ==> table_on(before, cursor, root, virt, level)
            == cursor + 4096 * (missing_tables(before, root, virt) - level),
{
    let wanted = missing_tables(before, root, virt) as int;
    if level > wanted {
        assert(table_of(before, root, virt, level) is Some);
    } else {
        assert(frame_ready(before, cursor, wanted - level));
    }
}

/// Where the tables on the walk of `virt` lie once it has been mapped:
/// each is a frame of the memory; one that was there lies below the
/// cursor; a fresh one lies at or above it; and none of them at `level`,
/// below the PML4, is the PML4.
pub proof fn lemma_table_place(before: Map<u64, u64>, cursor: u64, root: u64, virt: u64, level: int)
    requires
        tables_wf(before, root, cursor),
        1 <= level <= 4,
        tables_created(before, cursor, missing_tables(before, root, virt)) == missing_tables(
            before,
            root,
            virt,
        ),
    ensures
        frame_addr(table_on(before, cursor, root, virt, level)),
        frame_backed(before, table_on(before, cursor, root, virt, level)),
        level < 4 ==> table_on(before, cursor, root, virt, level) != root,
        level == 4 ==> table_on(before, cursor, root, virt, level) == root,
{
    lemma_table_on(before, cursor, root, virt, level);
    assert(table_of(before, root, virt, 4) == Some(root));
    if level < 4 && level > missing_tables(before, root, virt) {
        assert(table_of(before, root, virt, level) is Some);
        assert(table_of(before, root, virt, level) != table_of(before, root, virt, 4));
    }
}

/// A mapping adds no word to the memory and takes none from it.
pub proof fn lemma_mapped_dom(before: Map<u64, u64>, cursor: u64, root: u64, virt: u64, word: u64)
    requires
        tables_wf(before, root, cursor),
    ensures
        mapped(before, cursor, root, virt, word).dom() == before.dom(),
{
    let wanted = missing_tables(before, root, virt);
    let made = tables_created(before, cursor, wanted);
    if !path_huge(before, root, virt) {
        lemma_linked_entry(before, cursor, root, virt, made, root, 0);
        assert(table_of(before, root, virt, 4) == Some(root));
        if made == wanted {
            let now = tables_linked(before, cursor, root, virt, made);
            let pt = table_on(before, cursor, root, virt, 1);
            lemma_table_on(before, cursor, root, virt, 1);
            assert(frame_backed(now, pt));
            lemma_set_entry(now, pt, pt_index_of(virt), word, root, 0);
        }
    }
}

/// How the entries of the tables read once the first `made` of the tables
/// that the walk of `virt` lacks have been created.
proof fn lemma_linked_entry(
    before: Map<u64, u64>,
    cursor: u64,
    root: u64,
    virt: u64,
    made: nat,
    table: u64,
    index: u16,
)
    requires
        tables_wf(before, root, cursor),
        made <= tables_created(before, cursor, missing_tables(before, root, virt)),
        frame_addr(table),
        index < 512,
    ensures
        entry_at(tables_linked(before, cursor, root, virt, made), table, index) == linked_entry(
            before,
            cursor,
            root,
            virt,
            made as int,
            table,
            index,
        ),
        tables_linked(before, cursor, root, virt, made).dom() == before.dom(),
    decreases made,
{
    let wanted = missing_tables(before, root, virt) as int;
    if made > 0 {
        let level = wanted - made + 1;
        let fresh = (cursor + 4096 * (made - 1)) as u64;
        let parent = table_on(before, cursor, root, virt, level + 1);
        let above = tables_linked(before, cursor, root, virt, (made - 1) as nat);
        let now = tables_linked(before, cursor, root, virt, made);
        lemma_linked_entry(before, cursor, root, virt, (made - 1) as nat, table, index);
        assert(frame_ready(before, cursor, made - 1));
        lemma_table_on(before, cursor, root, virt, level + 1);
        lemma_table_on(before, cursor, root, virt, level);
        assert(index_of(virt, level + 1) < 512);
        assert(frame_backed(above, parent));
        assert(linked(above, now, parent, index_of(virt, level + 1), fresh));
        lemma_linked_entries(above, now, parent, index_of(virt, level + 1), fresh, table, index);
        if level < 3 {
            lemma_table_on(before, cursor, root, virt, level + 2);
        }
    }
}

/// How the entries of the tables read after a mapping: entry `index` of
/// the table at `table` is `mapped_entry`. So the entry `word` stands at
/// the place of `virt` in the PT, whatever its bits; each table that the
/// walk lacked is referenced by the table above it with the present and
/// the writable bit, and is zero but for the entry of `virt`; and no other
/// entry of any table has changed.
pub proof fn lemma_mapped_entry(
    before: Map<u64, u64>,
    cursor: u64,
    root: u64,
    virt: u64,
    word: u64,
    table: u64,
    index: u16,
)
    requires
        tables_wf(before, root, cursor),
        frame_addr(table),
        index < 512,
    ensures
        entry_at(mapped(before, cursor, root, virt, word), table, index) == mapped_entry(
            before,
            cursor,
            root,
            virt,
            word,
            table,
            index,
        ),
{
    let wanted = missing_tables(before, root, virt);
    let made = tables_created(before, cursor, wanted);
    if !path_huge(before, root, virt) {
        lemma_linked_entry(before, cursor, root, virt, made, table, index);
        if made == wanted {
            let now = tables_linked(before, cursor, root, virt, made);
            let pt = table_on(before, cursor, root, virt, 1);
            lemma_table_on(before, cursor, root, virt, 1);
            assert(frame_backed(now, pt));
            lemma_set_entry(now, pt, pt_index_of(virt), word, table, index);
        }
    }
}

/// Mapping a page that is mapped already takes no frame and writes one
/// word: the new entry replaces the old one at the place of the page in
/// its PT, whatever the bits of either.
pub proof fn lemma_map_again(
    before: Map<u64, u64>,
    cursor: u64,
    root: u64,
    virt: u64,
    word: u64,
)
    requires
        tables_wf(before, root, cursor),
        pt_of(before, root, virt) is Some,
    ensures
        mapped(before, cursor, root, virt, word) == before.insert(
            slot(pt_of(before, root, virt)->0, pt_index_of(virt)),
            word,
        ),
        entry_at(
            mapped(before, cursor, root, virt, word),
            pt_of(before, root, virt)->0,
            pt_index_of(virt),
        ) == word,
        tables_created(before, cursor, missing_tables(before, root, virt)) == 0,
{
    let pt = pt_of(before, root, virt)->0;
    lemma_known_flags();
    assert(table_of(before, root, virt, 1) == Some(pt));
    assert(table_of(before, root, virt, 2) is Some);
    assert(table_of(before, root, virt, 3) is Some);
    assert(!path_huge(before, root, virt));
    assert(tables_linked(before, cursor, root, virt, 0) == before);
    lemma_set_entry(before, pt, pt_index_of(virt), word, pt, pt_index_of(virt));
}

/// After a page has been mapped to a frame, with flags that leave the
/// address bits of the entry alone, every translation of the mapped address
/// that succeeds yields that frame.
pub proof fn lemma_map_round_trip(
    before: Map<u64, u64>,
    cursor: u64,
    root: u64,
    virt: u64,
    phys: u64,
    flags: u64,
    after: Map<u64, u64>,
    new_cursor: u64,
)
    requires
        virt % 4096 == 0,
        frame_addr(phys),
        flags_only(flags),
        map_post(
            before,
            cursor,
            root,
            virt,
            phys,
            flags,
            Ok::<(), MapError>(()),
            after,
            new_cursor,
        ),
        translate_spec(after, root, virt) is Some,
    ensures
        translate_spec(after, root, virt) == Some(phys),
{
    lemma_pack_unpack(phys, flags);
    assert(leaf_of(after, root, virt) == leaf_set(before, root, virt, (phys | flags), virt));
}

/// A page mapped present translates: after the mapping, the mapped address
/// yields the frame, and every address of the page yields the frame plus
/// its offset in the page.
pub proof fn lemma_map_translates(
    before: Map<u64, u64>,
    cursor: u64,
    root: u64,
    virt: u64,
    phys: u64,
    flags: u64,
    after: Map<u64, u64>,
    new_cursor: u64,
    v: u64,
)
    requires
        frame_addr(phys),
        flags_only(flags),
        entry_present(flags),
        same_page(v, virt),
        map_post(
            before,
            cursor,
            root,
            virt,
            phys,
            flags,
            Ok::<(), MapError>(()),
            after,
            new_cursor,
        ),
    ensures
        translate_spec(after, root, v) == Some((phys + v % 4096) as u64),
{
    lemma_pack_unpack(phys, flags);
    assert(leaf_of(after, root, v) == leaf_set(before, root, virt, (phys | flags), v));
}

/// A mapping leaves the translation of every other page as it was.
pub proof fn lemma_map_keeps_others(
    before: Map<u64, u64>,
    cursor: u64,
    root: u64,
    virt: u64,
    phys: u64,
    flags: u64,
    result: Result<(), MapError>,
    after: Map<u64, u64>,
    new_cursor: u64,
    v: u64,
)
    requires
        !same_page(v, virt),
        map_post(before, cursor, root, virt, phys, flags, result, after, new_cursor),
    ensures
        translate_spec(after, root, v) == translate_spec(before, root, v),
{
    if path_huge(before, root, virt) {
    } else if result is Ok {
        assert(leaf_of(after, root, v) == leaf_set(before, root, virt, (phys | flags), v));
    } else {
        assert(leaf_of(after, root, v) == leaf_of(before, root, v));
    }
}

/// Mapping the same page twice, to two frames, leaves the second frame to
/// be found and not the first: every translation of the mapped address
/// that succeeds yields the second frame, and it succeeds if the second
/// mapping is present.
pub proof fn lemma_map_overwrites(
    before: Map<u64, u64>,
    cursor: u64,
    root: u64,
    virt: u64,
    first: u64,
    first_flags: u64,
    between: Map<u64, u64>,
    between_cursor: u64,
    second: u64,
    second_flags: u64,
    after: Map<u64, u64>,
    new_cursor: u64,
)
    requires
        virt % 4096 == 0,
        frame_addr(second),
        flags_only(second_flags),
        first != second,
        map_post(
            before,
            cursor,
            root,
            virt,
            first,
            first_flags,
            Ok::<(), MapError>(()),
            between,
            between_cursor,
        ),
        map_post(
            between,
            between_cursor,
            root,
            virt,
            second,
            second_flags,
            Ok::<(), MapError>(()),
            after,
            new_cursor,
        ),
    ensures
        translate_spec(after, root, virt) is Some ==> translate_spec(after, root, virt) == Some(
            second,
        ),
        translate_spec(after, root, virt) != Some(first),
        entry_present(second_flags) ==> translate_spec(after, root, virt) == Some(second),
{
    lemma_pack_unpack(second, second_flags);
    assert(leaf_of(after, root, virt) == leaf_set(
        between,
        root,
        virt,
        (second | second_flags),
        virt,
    ));
}

} // verus!
