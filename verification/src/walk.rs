//! The translation that the page tables in a memory define.
//!
//! Everything here is specification: what the processor makes of a
//! four-level hierarchy, when a hierarchy is well formed, and how the two
//! writes that build a hierarchy (linking a fresh table, setting a leaf)
//! change the translation.

use vstd::prelude::*;
use crate::paging::{
    entry_addr, entry_huge, entry_present, frame_addr, lemma_known_flags, lemma_pack_unpack,
    pd_index_of, pdp_index_of, pml4_index_of, pt_index_of, TABLE_FLAGS,
};
use crate::phys_mem::{frame_backed, word_addr, zeroed};

verus! {

/// The address of entry `index` of the table at `table`.
pub open spec fn slot(table: u64, index: u16) -> u64 {
    word_addr(table, index as int)
}

/// Entry `index` of the table at `table`. Where `table` is not the address
/// of a frame, or the memory has no word there, the entry reads as 0: not
/// present.
pub open spec fn entry_at(mem: Map<u64, u64>, table: u64, index: u16) -> u64 {
    if frame_addr(table) && mem.dom().contains(slot(table, index)) {
        mem[slot(table, index)]
    } else {
        0
    }
}

/// The table that entry `index` of the table at `table` references, if it
/// references one: the entry is present and is no huge page.
pub open spec fn child(mem: Map<u64, u64>, table: u64, index: u16) -> Option<u64> {
    let entry = entry_at(mem, table, index);
    if entry_present(entry) && !entry_huge(entry) {
        Some(entry_addr(entry))
    } else {
        None
    }
}

/// The PDP that the walk of `virt` goes through, if it reaches one.
pub open spec fn pdp_of(mem: Map<u64, u64>, root: u64, virt: u64) -> Option<u64> {
    child(mem, root, pml4_index_of(virt))
}

/// The PD that the walk of `virt` goes through, if it reaches one.
pub open spec fn pd_of(mem: Map<u64, u64>, root: u64, virt: u64) -> Option<u64> {
    match pdp_of(mem, root, virt) {
        Some(table) => child(mem, table, pdp_index_of(virt)),
        None => None,
    }
}

/// The PT that the walk of `virt` goes through, if it reaches one.
pub open spec fn pt_of(mem: Map<u64, u64>, root: u64, virt: u64) -> Option<u64> {
    match pd_of(mem, root, virt) {
        Some(table) => child(mem, table, pd_index_of(virt)),
        None => None,
    }
}

/// The table at `level` that the walk of `virt` goes through, if it reaches
/// one. Level 4 is the PML4 at `root`, level 1 the PT.
pub open spec fn table_of(mem: Map<u64, u64>, root: u64, virt: u64, level: int) -> Option<u64> {
    if level == 4 {
        Some(root)
    } else if level == 3 {
        pdp_of(mem, root, virt)
    } else if level == 2 {
        pd_of(mem, root, virt)
    } else if level == 1 {
        pt_of(mem, root, virt)
    } else {
        None
    }
}

/// The index that `virt` selects in a table at `level`.
pub open spec fn index_of(virt: u64, level: int) -> u16 {
    if level == 4 {
        pml4_index_of(virt)
    } else if level == 3 {
        pdp_index_of(virt)
    } else if level == 2 {
        pd_index_of(virt)
    } else {
        pt_index_of(virt)
    }
}

/// The indices by which `virt` selects its table at `level`: none for the
/// PML4, the PML4 index for the PDP, and so on. Unused places are 0.
pub open spec fn prefix_of(virt: u64, level: int) -> (u16, u16, u16) {
    if level >= 4 {
        (0, 0, 0)
    } else if level == 3 {
        (pml4_index_of(virt), 0, 0)
    } else if level == 2 {
        (pml4_index_of(virt), pdp_index_of(virt), 0)
    } else {
        (pml4_index_of(virt), pdp_index_of(virt), pd_index_of(virt))
    }
}

/// Whether `a` and `b` lie in the same 4 KiB page as far as translation
/// goes: they select the same entry at each of the four levels.
pub open spec fn same_page(a: u64, b: u64) -> bool {
    &&& pml4_index_of(a) == pml4_index_of(b)
    &&& pdp_index_of(a) == pdp_index_of(b)
    &&& pd_index_of(a) == pd_index_of(b)
    &&& pt_index_of(a) == pt_index_of(b)
}

/// The size in bytes of a page mapped by an entry in a table at `level`.
pub open spec fn page_size(level: int) -> u64 {
    if level == 3 {
        0x4000_0000
    } else if level == 2 {
        0x20_0000
    } else {
        0x1000
    }
}

/// The entry that maps `virt`, with the level of the table it stands in, if
/// `virt` is mapped: a present entry of the PT, or a present huge-page entry
/// of the PD or the PDP.
pub open spec fn leaf_of(mem: Map<u64, u64>, root: u64, virt: u64) -> Option<(u64, int)> {
    if let Some(table) = pt_of(mem, root, virt) {
        let entry = entry_at(mem, table, pt_index_of(virt));
        if entry_present(entry) {
            Some((entry, 1int))
        } else {
            None
        }
    } else if let Some(table) = pd_of(mem, root, virt) {
        let entry = entry_at(mem, table, pd_index_of(virt));
        if entry_present(entry) && entry_huge(entry) {
            Some((entry, 2int))
        } else {
            None
        }
    } else if let Some(table) = pdp_of(mem, root, virt) {
        let entry = entry_at(mem, table, pdp_index_of(virt));
        if entry_present(entry) && entry_huge(entry) {
            Some((entry, 3int))
        } else {
            None
        }
    } else {
        None
    }
}

/// The physical address that a page entry found at `level` gives `virt`:
/// the start of the page plus the offset of `virt` in it.
pub open spec fn page_address(entry: u64, level: int, virt: u64) -> u64 {
    (entry_addr(entry) - entry_addr(entry) % page_size(level) + virt % page_size(level)) as u64
}

/// The physical address that `virt` translates to in the hierarchy at
/// `root`, if it is mapped.
pub open spec fn translate_spec(mem: Map<u64, u64>, root: u64, virt: u64) -> Option<u64> {
    match leaf_of(mem, root, virt) {
        Some((entry, level)) => Some(page_address(entry, level, virt)),
        None => None,
    }
}

/// Whether the hierarchy at `root` is well formed: its tables are whole
/// frames of the memory below `limit`, and it is a tree, that is, each table
/// is reached at one level and through one sequence of indices only. Frames
/// from `limit` on are free to become new tables.
pub open spec fn tables_wf(mem: Map<u64, u64>, root: u64, limit: u64) -> bool {
    &&& limit % 4096 == 0
    &&& forall|virt: u64, level: int|
        1 <= level <= 4 ==> match #[trigger] table_of(mem, root, virt, level) {
            Some(table) => frame_addr(table) && frame_backed(mem, table) && table < limit,
            None => true,
        }
    &&& forall|a: u64, i: int, b: u64, j: int|
        1 <= i <= 4 && 1 <= j <= 4 && table_of(mem, root, a, i) is Some && #[trigger] table_of(
            mem,
            root,
            a,
            i,
        ) == #[trigger] table_of(mem, root, b, j) ==> i == j && prefix_of(a, i) == prefix_of(b, j)
}

/// Whether `after` is `before` with a fresh table linked in: the frame at
/// `fresh` is zeroed and entry `index` of the table at `parent` references
/// it.
pub open spec fn linked(
    before: Map<u64, u64>,
    after: Map<u64, u64>,
    parent: u64,
    index: u16,
    fresh: u64,
) -> bool {
    after == zeroed(before, fresh).insert(slot(parent, index), (fresh | TABLE_FLAGS))
}

/// Addresses that select the same table at a level go through the same
/// table there.
pub proof fn lemma_same_prefix(mem: Map<u64, u64>, root: u64, a: u64, b: u64, level: int)
    requires
        1 <= level <= 4,
        prefix_of(a, level) == prefix_of(b, level),
    ensures
        table_of(mem, root, a, level) == table_of(mem, root, b, level),
{
}

/// Addresses of the same page map alike.
pub proof fn lemma_same_page_leaf(mem: Map<u64, u64>, root: u64, a: u64, b: u64)
    requires
        same_page(a, b),
    ensures
        leaf_of(mem, root, a) == leaf_of(mem, root, b),
{
}

/// The entries of two whole frames lie apart unless table and index agree.
pub proof fn lemma_slot_distinct(a: u64, i: u16, b: u64, j: u16)
    requires
        frame_addr(a),
        frame_addr(b),
        i < 512,
        j < 512,
    ensures
        slot(a, i) == slot(b, j) <==> a == b && i == j,
        a <= slot(a, i) < a + 4096,
{
}

/// How the entries of the tables read after a fresh table is linked in.
pub proof fn lemma_linked_entries(
    before: Map<u64, u64>,
    after: Map<u64, u64>,
    parent: u64,
    index: u16,
    fresh: u64,
    table: u64,
    i: u16,
)
    requires
        linked(before, after, parent, index, fresh),
        frame_addr(parent),
        frame_addr(fresh),
        frame_addr(table),
        frame_backed(before, parent),
        parent != fresh,
        index < 512,
        i < 512,
    ensures
        entry_at(after, table, i) == if table == parent && i == index {
            (fresh | TABLE_FLAGS)
        } else if table == fresh {
            0
        } else {
            entry_at(before, table, i)
        },
        after.dom() == before.dom(),
{
    lemma_slot_distinct(table, i, parent, index);
    lemma_slot_distinct(table, i, fresh, 0);
    assert(before.dom().contains(word_addr(parent, index as int)));
    assert(after.dom() =~= before.dom());
}

/// How the entries of the tables read after one of them is set.
pub proof fn lemma_set_entry(
    before: Map<u64, u64>,
    parent: u64,
    index: u16,
    entry: u64,
    table: u64,
    i: u16,
)
    requires
        frame_addr(parent),
        frame_addr(table),
        frame_backed(before, parent),
        index < 512,
        i < 512,
    ensures
        entry_at(before.insert(slot(parent, index), entry), table, i) == if table == parent && i
            == index {
            entry
        } else {
            entry_at(before, table, i)
        },
        before.insert(slot(parent, index), entry).dom() == before.dom(),
{
    lemma_slot_distinct(table, i, parent, index);
    assert(before.dom().contains(word_addr(parent, index as int)));
    assert(before.insert(slot(parent, index), entry).dom() =~= before.dom());
}

/// Whether the tables of `after` read as those of `before` with a fresh,
/// empty table referenced by entry `index` of the table at `parent`.
spec fn entries_linked(
    before: Map<u64, u64>,
    after: Map<u64, u64>,
    parent: u64,
    index: u16,
    fresh: u64,
) -> bool {
    &&& after.dom() == before.dom()
    &&& forall|table: u64, i: u16|
        frame_addr(table) && i < 512 ==> #[trigger] entry_at(after, table, i) == if table
            == parent && i == index {
            (fresh | TABLE_FLAGS)
        } else if table == fresh {
            0
        } else {
            entry_at(before, table, i)
        }
}

/// What the walk of `v` finds after a fresh table for `virt` is linked in
/// at `level`.
proof fn lemma_link_walk(
    before: Map<u64, u64>,
    after: Map<u64, u64>,
    root: u64,
    limit: u64,
    virt: u64,
    level: int,
    parent: u64,
    fresh: u64,
    v: u64,
)
    requires
        tables_wf(before, root, limit),
        1 <= level <= 3,
        table_of(before, root, virt, level + 1) == Some(parent),
        !entry_present(entry_at(before, parent, index_of(virt, level + 1))),
        frame_addr(fresh),
        fresh >= limit,
        entries_linked(before, after, parent, index_of(virt, level + 1), fresh),
    ensures
        forall|l: int|
            1 <= l <= 4 ==> #[trigger] table_of(after, root, v, l) == if l == level && prefix_of(
                v,
                level,
            ) == prefix_of(virt, level) {
                Some(fresh)
            } else {
                table_of(before, root, v, l)
            },
        leaf_of(after, root, v) == leaf_of(before, root, v),
{
    lemma_known_flags();
    lemma_pack_unpack(fresh, TABLE_FLAGS);
    let index = index_of(virt, level + 1);
    let shares = prefix_of(v, level) == prefix_of(virt, level);
    // The tables that the two walks went through before.
    let t4 = table_of(before, root, v, 4);
    let t3 = table_of(before, root, v, 3);
    let t2 = table_of(before, root, v, 2);
    let t1 = table_of(before, root, v, 1);
    let via4 = table_of(before, root, virt, 4);
    let via3 = table_of(before, root, virt, 3);
    let via2 = table_of(before, root, virt, 2);
    let via1 = table_of(before, root, virt, 1);
    assert(root != fresh);
    assert(table_of(after, root, v, 4) == Some(root));
    // Level 3.
    assert(entry_at(after, root, pml4_index_of(v)) == if root == parent && pml4_index_of(v)
        == index {
        (fresh | TABLE_FLAGS)
    } else {
        entry_at(before, root, pml4_index_of(v))
    });
    if level == 3 {
        assert(parent == root);
    } else {
        assert(parent != root);
    }
    let a3 = table_of(after, root, v, 3);
    assert(a3 == if level == 3 && shares {
        Some(fresh)
    } else {
        t3
    });
    // Level 2.
    if a3 is Some {
        let table = a3->0;
        assert(frame_addr(table));
        assert(entry_at(after, table, pdp_index_of(v)) == if table == parent && pdp_index_of(v)
            == index {
            (fresh | TABLE_FLAGS)
        } else if table == fresh {
            0
        } else {
            entry_at(before, table, pdp_index_of(v))
        });
        if table != fresh {
            assert(t3 == Some(table));
            if table == parent {
                assert(level == 2);
                assert(prefix_of(v, 3) == prefix_of(virt, 3));
            }
        }
    }
    let a2 = table_of(after, root, v, 2);
    assert(a2 == if level == 2 && shares {
        Some(fresh)
    } else {
        t2
    });
    // Level 1.
    if a2 is Some {
        let table = a2->0;
        assert(frame_addr(table));
        assert(entry_at(after, table, pd_index_of(v)) == if table == parent && pd_index_of(v)
            == index {
            (fresh | TABLE_FLAGS)
        } else if table == fresh {
            0
        } else {
            entry_at(before, table, pd_index_of(v))
        });
        if table != fresh {
            assert(t2 == Some(table));
            if table == parent {
                assert(level == 1);
                assert(prefix_of(v, 2) == prefix_of(virt, 2));
            }
        }
    }
    let a1 = table_of(after, root, v, 1);
    assert(a1 == if level == 1 && shares {
        Some(fresh)
    } else {
        t1
    });
    // The entry that decides the mapping.
    if a1 is Some {
        let table = a1->0;
        assert(frame_addr(table));
        assert(entry_at(after, table, pt_index_of(v)) == if table == fresh {
            0
        } else {
            entry_at(before, table, pt_index_of(v))
        }) by {
            if table != fresh {
                assert(t1 == Some(table));
                assert(table != parent);
            }
        }
    }
}

/// What the walk of `v` finds in the hierarchy at `root` once a fresh
/// table for `virt` is linked in at `level`.
pub open spec fn linked_table_of(
    before: Map<u64, u64>,
    root: u64,
    virt: u64,
    level: int,
    fresh: u64,
    v: u64,
    l: int,
) -> Option<u64> {
    if l == level && prefix_of(v, level) == prefix_of(virt, level) {
        Some(fresh)
    } else {
        table_of(before, root, v, l)
    }
}

/// Linking a fresh, zeroed table into a well-formed hierarchy, at an entry
/// that was not present, keeps the hierarchy well formed and maps nothing
/// new: the fresh table is reached by the addresses that share the indices
/// of `virt` above `level`, every other table stays where it was, and every
/// address translates as before.
pub proof fn lemma_link(
    before: Map<u64, u64>,
    after: Map<u64, u64>,
    root: u64,
    limit: u64,
    virt: u64,
    level: int,
    parent: u64,
    fresh: u64,
    new_limit: u64,
)
    requires
        tables_wf(before, root, limit),
        1 <= level <= 3,
        table_of(before, root, virt, level + 1) == Some(parent),
        !entry_present(entry_at(before, parent, index_of(virt, level + 1))),
        frame_addr(fresh),
        frame_backed(before, fresh),
        limit <= fresh < new_limit,
        new_limit % 4096 == 0,
        linked(before, after, parent, index_of(virt, level + 1), fresh),
    ensures
        tables_wf(after, root, new_limit),
        after.dom() == before.dom(),
        forall|v: u64, l: int|
            1 <= l <= 4 ==> #[trigger] table_of(after, root, v, l) == linked_table_of(
                before,
                root,
                virt,
                level,
                fresh,
                v,
                l,
            ),
        forall|v: u64| #[trigger] leaf_of(after, root, v) == leaf_of(before, root, v),
        forall|i: u16| i < 512 ==> #[trigger] entry_at(after, fresh, i) == 0,
{
    let index = index_of(virt, level + 1);
    assert(table_of(before, root, virt, level + 1) is Some);
    assert(frame_addr(parent) && frame_backed(before, parent) && parent < limit);
    assert forall|table: u64, i: u16| frame_addr(table) && i < 512 implies #[trigger] entry_at(
        after,
        table,
        i,
    ) == if table == parent && i == index {
        (fresh | TABLE_FLAGS)
    } else if table == fresh {
        0
    } else {
        entry_at(before, table, i)
    } by {
        lemma_linked_entries(before, after, parent, index, fresh, table, i);
    }
    lemma_linked_entries(before, after, parent, index, fresh, parent, index);
    assert(entries_linked(before, after, parent, index, fresh));
    assert forall|v: u64, l: int| 1 <= l <= 4 implies #[trigger] table_of(after, root, v, l)
        == linked_table_of(before, root, virt, level, fresh, v, l) by {
        lemma_link_walk(before, after, root, limit, virt, level, parent, fresh, v);
    }
    assert forall|v: u64| #[trigger] leaf_of(after, root, v) == leaf_of(before, root, v) by {
        lemma_link_walk(before, after, root, limit, virt, level, parent, fresh, v);
    }
    assert forall|v: u64, l: int| 1 <= l <= 4 implies match #[trigger] table_of(
        after,
        root,
        v,
        l,
    ) {
        Some(table) => frame_addr(table) && frame_backed(after, table) && table < new_limit,
        None => true,
    } by {
        let old_table = table_of(before, root, v, l);
        assert(table_of(after, root, v, l) == linked_table_of(
            before,
            root,
            virt,
            level,
            fresh,
            v,
            l,
        ));
    }
    assert forall|a: u64, i: int, b: u64, j: int|
        1 <= i <= 4 && 1 <= j <= 4 && table_of(after, root, a, i) is Some && #[trigger] table_of(
            after,
            root,
            a,
            i,
        ) == #[trigger] table_of(after, root, b, j) implies i == j && prefix_of(a, i)
        == prefix_of(b, j) by {
        let ta = table_of(before, root, a, i);
        let tb = table_of(before, root, b, j);
        assert(table_of(after, root, a, i) == linked_table_of(
            before,
            root,
            virt,
            level,
            fresh,
            a,
            i,
        ));
        assert(table_of(after, root, b, j) == linked_table_of(
            before,
            root,
            virt,
            level,
            fresh,
            b,
            j,
        ));
    }
}

/// Whether the tables of `after` read as those of `before` with entry
/// `index` of the table at `table` set to `entry`.
spec fn entries_set(
    before: Map<u64, u64>,
    after: Map<u64, u64>,
    table: u64,
    index: u16,
    entry: u64,
) -> bool {
    &&& after.dom() == before.dom()
    &&& forall|t: u64, i: u16|
        frame_addr(t) && i < 512 ==> #[trigger] entry_at(after, t, i) == if t == table && i
            == index {
            entry
        } else {
            entry_at(before, t, i)
        }
}

proof fn lemma_entries_set(before: Map<u64, u64>, table: u64, index: u16, entry: u64)
    requires
        frame_addr(table),
        frame_backed(before, table),
        index < 512,
    ensures
        entries_set(before, before.insert(slot(table, index), entry), table, index, entry),
{
    let after = before.insert(slot(table, index), entry);
    assert(before.dom().contains(word_addr(table, index as int)));
    assert(after.dom() =~= before.dom());
    assert forall|t: u64, i: u16| frame_addr(t) && i < 512 implies #[trigger] entry_at(
        after,
        t,
        i,
    ) == if t == table && i == index {
        entry
    } else {
        entry_at(before, t, i)
    } by {
        lemma_slot_distinct(t, i, table, index);
    }
}

/// What the mapping of `v` is once the page of `virt` is mapped by `entry`.
pub open spec fn leaf_set(
    before: Map<u64, u64>,
    root: u64,
    virt: u64,
    entry: u64,
    v: u64,
) -> Option<(u64, int)> {
    if same_page(v, virt) {
        if entry_present(entry) {
            Some((entry, 1int))
        } else {
            None
        }
    } else {
        leaf_of(before, root, v)
    }
}

/// Setting the entry of the PT that `virt` selects, in a well-formed
/// hierarchy, changes what the addresses of that page map to and nothing
/// else.
pub proof fn lemma_set_leaf(
    before: Map<u64, u64>,
    after: Map<u64, u64>,
    root: u64,
    limit: u64,
    virt: u64,
    table: u64,
    entry: u64,
)
    requires
        tables_wf(before, root, limit),
        pt_of(before, root, virt) == Some(table),
        after == before.insert(slot(table, pt_index_of(virt)), entry),
    ensures
        tables_wf(after, root, limit),
        after.dom() == before.dom(),
        forall|v: u64, l: int|
            1 <= l <= 4 ==> #[trigger] table_of(after, root, v, l) == table_of(before, root, v, l),
        forall|v: u64| #[trigger] leaf_of(after, root, v) == leaf_set(before, root, virt, entry, v),
{
    let index = pt_index_of(virt);
    assert(table_of(before, root, virt, 1) == Some(table));
    assert(frame_addr(table) && frame_backed(before, table));
    lemma_entries_set(before, table, index, entry);
    assert forall|v: u64, l: int| 1 <= l <= 4 implies #[trigger] table_of(after, root, v, l)
        == table_of(before, root, v, l) by {
        lemma_set_leaf_walk(before, after, root, limit, virt, table, entry, v);
    }
    assert forall|v: u64| #[trigger]
        leaf_of(after, root, v) == leaf_set(before, root, virt, entry, v) by {
        lemma_set_leaf_walk(before, after, root, limit, virt, table, entry, v);
    }
    lemma_same_tables_wf(before, after, root, limit);
}

/// A hierarchy whose walks go through the same tables as those of a
/// well-formed one, in a memory with the same words, is well formed.
proof fn lemma_same_tables_wf(before: Map<u64, u64>, after: Map<u64, u64>, root: u64, limit: u64)
    requires
        tables_wf(before, root, limit),
        after.dom() == before.dom(),
        forall|v: u64, l: int|
            1 <= l <= 4 ==> #[trigger] table_of(after, root, v, l) == table_of(before, root, v, l),
    ensures
        tables_wf(after, root, limit),
{
    assert forall|v: u64, l: int| 1 <= l <= 4 implies match #[trigger] table_of(
        after,
        root,
        v,
        l,
    ) {
        Some(t) => frame_addr(t) && frame_backed(after, t) && t < limit,
        None => true,
    } by {
        assert(table_of(after, root, v, l) == table_of(before, root, v, l));
    }
    assert forall|a: u64, i: int, b: u64, j: int|
        1 <= i <= 4 && 1 <= j <= 4 && table_of(after, root, a, i) is Some && #[trigger] table_of(
            after,
            root,
            a,
            i,
        ) == #[trigger] table_of(after, root, b, j) implies i == j && prefix_of(a, i)
        == prefix_of(b, j) by {
        assert(table_of(after, root, a, i) == table_of(before, root, a, i));
        assert(table_of(after, root, b, j) == table_of(before, root, b, j));
    }
}

/// What the walk of `v` finds after the entry of the PT that `virt` selects
/// is set.
proof fn lemma_set_leaf_walk(
    before: Map<u64, u64>,
    after: Map<u64, u64>,
    root: u64,
    limit: u64,
    virt: u64,
    table: u64,
    entry: u64,
    v: u64,
)
    requires
        tables_wf(before, root, limit),
        pt_of(before, root, virt) == Some(table),
        entries_set(before, after, table, pt_index_of(virt), entry),
    ensures
        forall|l: int|
            1 <= l <= 4 ==> #[trigger] table_of(after, root, v, l) == table_of(before, root, v, l),
        leaf_of(after, root, v) == leaf_set(before, root, virt, entry, v),
{
    let t4 = table_of(before, root, v, 4);
    let t3 = table_of(before, root, v, 3);
    let t2 = table_of(before, root, v, 2);
    let t1 = table_of(before, root, v, 1);
    let via1 = table_of(before, root, virt, 1);
    assert(via1 == Some(table));
    assert(frame_addr(root) && root != table);
    assert(entry_at(after, root, pml4_index_of(v)) == entry_at(before, root, pml4_index_of(v)));
    assert(table_of(after, root, v, 3) == t3);
    if t3 is Some {
        let t = t3->0;
        assert(frame_addr(t) && t != table);
        assert(entry_at(after, t, pdp_index_of(v)) == entry_at(before, t, pdp_index_of(v)));
    }
    assert(table_of(after, root, v, 2) == t2);
    if t2 is Some {
        let t = t2->0;
        assert(frame_addr(t) && t != table);
        assert(entry_at(after, t, pd_index_of(v)) == entry_at(before, t, pd_index_of(v)));
    }
    assert(table_of(after, root, v, 1) == t1);
    if t1 is Some {
        let t = t1->0;
        assert(frame_addr(t));
        if t == table {
            assert(prefix_of(v, 1) == prefix_of(virt, 1));
        }
        assert(entry_at(after, t, pt_index_of(v)) == if t == table && pt_index_of(v)
            == pt_index_of(virt) {
            entry
        } else {
            entry_at(before, t, pt_index_of(v))
        });
    }
    if same_page(v, virt) {
        lemma_same_prefix(before, root, v, virt, 1);
    }
}

/// A well-formed hierarchy stays well formed when the limit above its
/// tables is raised.
pub proof fn lemma_limit_grows(mem: Map<u64, u64>, root: u64, limit: u64, new_limit: u64)
    requires
        tables_wf(mem, root, limit),
        limit <= new_limit,
        new_limit % 4096 == 0,
    ensures
        tables_wf(mem, root, new_limit),
{
    assert forall|v: u64, l: int| 1 <= l <= 4 implies match #[trigger] table_of(mem, root, v, l) {
        Some(table) => frame_addr(table) && frame_backed(mem, table) && table < new_limit,
        None => true,
    } by {}
}

/// Whether `after` has the words of `before` and agrees with it on every
/// word below `limit`.
pub open spec fn same_below(before: Map<u64, u64>, after: Map<u64, u64>, limit: u64) -> bool {
    &&& after.dom() == before.dom()
    &&& forall|addr: u64|
        addr < limit && before.dom().contains(addr) ==> #[trigger] after[addr] == before[addr]
}

/// Whether the tables below `limit` read the same in `before` and `after`.
spec fn entries_same_below(before: Map<u64, u64>, after: Map<u64, u64>, limit: u64) -> bool {
    &&& after.dom() == before.dom()
    &&& forall|table: u64, i: u16|
        frame_addr(table) && table < limit && i < 512 ==> #[trigger] entry_at(after, table, i)
            == entry_at(before, table, i)
}

proof fn lemma_entries_same_below(before: Map<u64, u64>, after: Map<u64, u64>, limit: u64)
    requires
        same_below(before, after, limit),
        limit % 4096 == 0,
    ensures
        entries_same_below(before, after, limit),
{
    assert forall|table: u64, i: u16|
        frame_addr(table) && table < limit && i < 512 implies #[trigger] entry_at(after, table, i)
        == entry_at(before, table, i) by {
        let addr = slot(table, i);
        assert(addr < limit);
        if before.dom().contains(addr) {
            assert(after[addr] == before[addr]);
        }
    }
}

proof fn lemma_same_below_walk(
    before: Map<u64, u64>,
    after: Map<u64, u64>,
    root: u64,
    limit: u64,
    v: u64,
)
    requires
        tables_wf(before, root, limit),
        entries_same_below(before, after, limit),
    ensures
        forall|l: int|
            1 <= l <= 4 ==> #[trigger] table_of(after, root, v, l) == table_of(before, root, v, l),
        leaf_of(after, root, v) == leaf_of(before, root, v),
{
    let t4 = table_of(before, root, v, 4);
    let t3 = table_of(before, root, v, 3);
    let t2 = table_of(before, root, v, 2);
    let t1 = table_of(before, root, v, 1);
    assert(t4 == Some(root));
    assert(entry_at(after, root, pml4_index_of(v)) == entry_at(before, root, pml4_index_of(v)));
    assert(table_of(after, root, v, 3) == t3);
    if t3 is Some {
        assert(entry_at(after, t3->0, pdp_index_of(v)) == entry_at(
            before,
            t3->0,
            pdp_index_of(v),
        ));
    }
    assert(table_of(after, root, v, 2) == t2);
    if t2 is Some {
        assert(entry_at(after, t2->0, pd_index_of(v)) == entry_at(before, t2->0, pd_index_of(v)));
    }
    assert(table_of(after, root, v, 1) == t1);
    if t1 is Some {
        assert(entry_at(after, t1->0, pt_index_of(v)) == entry_at(before, t1->0, pt_index_of(v)));
    }
}

/// Writes at or above the limit of a well-formed hierarchy leave it as it
/// is: the same tables, the same mappings.
pub proof fn lemma_same_below(before: Map<u64, u64>, after: Map<u64, u64>, root: u64, limit: u64)
    requires
        tables_wf(before, root, limit),
        same_below(before, after, limit),
    ensures
        tables_wf(after, root, limit),
        forall|v: u64, l: int|
            1 <= l <= 4 ==> #[trigger] table_of(after, root, v, l) == table_of(before, root, v, l),
        forall|v: u64| #[trigger] leaf_of(after, root, v) == leaf_of(before, root, v),
        forall|table: u64, i: u16|
            frame_addr(table) && table < limit && i < 512 ==> #[trigger] entry_at(after, table, i)
                == entry_at(before, table, i),
{
    lemma_entries_same_below(before, after, limit);
    assert forall|v: u64, l: int| 1 <= l <= 4 implies #[trigger] table_of(after, root, v, l)
        == table_of(before, root, v, l) by {
        lemma_same_below_walk(before, after, root, limit, v);
    }
    assert forall|v: u64| #[trigger] leaf_of(after, root, v) == leaf_of(before, root, v) by {
        lemma_same_below_walk(before, after, root, limit, v);
    }
    lemma_same_tables_wf(before, after, root, limit);
}

/// Whether every entry of the table at `table` is 0.
pub open spec fn table_empty(mem: Map<u64, u64>, table: u64) -> bool {
    forall|i: u16| i < 512 ==> #[trigger] entry_at(mem, table, i) == 0
}

/// A PML4 without entries is a well-formed hierarchy that maps nothing.
pub proof fn lemma_empty_root(mem: Map<u64, u64>, root: u64, limit: u64)
    requires
        frame_addr(root),
        frame_backed(mem, root),
        table_empty(mem, root),
        root < limit,
        limit % 4096 == 0,
    ensures
        tables_wf(mem, root, limit),
        forall|v: u64, l: int| 1 <= l <= 3 ==> #[trigger] table_of(mem, root, v, l) is None,
        forall|v: u64| #[trigger] leaf_of(mem, root, v) is None,
{
    lemma_known_flags();
    assert forall|v: u64, l: int| 1 <= l <= 3 implies #[trigger] table_of(mem, root, v, l)
        is None by {
        assert(entry_at(mem, root, pml4_index_of(v)) == 0);
    }
    assert forall|v: u64| #[trigger] leaf_of(mem, root, v) is None by {
        assert(table_of(mem, root, v, 3) is None);
    }
    assert forall|v: u64, l: int| 1 <= l <= 4 implies match #[trigger] table_of(mem, root, v, l) {
        Some(table) => frame_addr(table) && frame_backed(mem, table) && table < limit,
        None => true,
    } by {
        if l < 4 {
            assert(table_of(mem, root, v, l) is None);
        }
    }
    assert forall|a: u64, i: int, b: u64, j: int|
        1 <= i <= 4 && 1 <= j <= 4 && table_of(mem, root, a, i) is Some && #[trigger] table_of(
            mem,
            root,
            a,
            i,
        ) == #[trigger] table_of(mem, root, b, j) implies i == j && prefix_of(a, i) == prefix_of(
        b,
        j,
    ) by {
        if i < 4 {
            assert(table_of(mem, root, a, i) is None);
        }
        if j < 4 {
            assert(table_of(mem, root, b, j) is None);
        }
    }
}

/// The table at `level` on the walk of `v` in the hierarchy at `root` once
/// entry `index` of its PML4 is a copy of that entry of the PML4 at `donor`.
pub open spec fn grafted_table_of(
    mem: Map<u64, u64>,
    root: u64,
    donor: u64,
    index: u16,
    v: u64,
    level: int,
) -> Option<u64> {
    if pml4_index_of(v) == index && level < 4 {
        table_of(mem, donor, v, level)
    } else {
        table_of(mem, root, v, level)
    }
}

/// The mapping of `v` in the hierarchy at `root` once entry `index` of its
/// PML4 is a copy of that entry of the PML4 at `donor`.
pub open spec fn grafted_leaf_of(
    mem: Map<u64, u64>,
    root: u64,
    donor: u64,
    index: u16,
    v: u64,
) -> Option<(u64, int)> {
    if pml4_index_of(v) == index {
        leaf_of(mem, donor, v)
    } else {
        leaf_of(mem, root, v)
    }
}

/// Whether every table of the hierarchy at `root` lies at or above `low`.
pub open spec fn tables_above(mem: Map<u64, u64>, root: u64, low: u64) -> bool {
    forall|v: u64, l: int|
        1 <= l <= 4 ==> match #[trigger] table_of(mem, root, v, l) {
            Some(table) => table >= low,
            None => true,
        }
}

proof fn lemma_graft_walk(
    mem: Map<u64, u64>,
    after: Map<u64, u64>,
    root: u64,
    donor: u64,
    index: u16,
    low: u64,
    limit: u64,
    v: u64,
)
    requires
        tables_wf(mem, root, limit),
        tables_wf(mem, donor, low),
        tables_above(mem, root, low),
        index < 512,
        entries_set(mem, after, root, index, entry_at(mem, donor, index)),
    ensures
        forall|l: int|
            1 <= l <= 4 ==> #[trigger] table_of(after, root, v, l) == grafted_table_of(
                mem,
                root,
                donor,
                index,
                v,
                l,
            ),
        leaf_of(after, root, v) == grafted_leaf_of(mem, root, donor, index, v),
{
    assert(table_of(mem, root, v, 4) == Some(root));
    assert(table_of(mem, donor, v, 4) == Some(donor));
    assert(root >= low);
    let from = if pml4_index_of(v) == index {
        donor
    } else {
        root
    };
    let t3 = table_of(mem, from, v, 3);
    let t2 = table_of(mem, from, v, 2);
    let t1 = table_of(mem, from, v, 1);
    assert(table_of(after, root, v, 3) == t3);
    if t3 is Some {
        assert(frame_addr(t3->0) && t3->0 != root);
        assert(entry_at(after, t3->0, pdp_index_of(v)) == entry_at(mem, t3->0, pdp_index_of(v)));
    }
    assert(table_of(after, root, v, 2) == t2);
    if t2 is Some {
        assert(frame_addr(t2->0) && t2->0 != root);
        assert(entry_at(after, t2->0, pd_index_of(v)) == entry_at(mem, t2->0, pd_index_of(v)));
    }
    assert(table_of(after, root, v, 1) == t1);
    if t1 is Some {
        assert(frame_addr(t1->0) && t1->0 != root);
        assert(entry_at(after, t1->0, pt_index_of(v)) == entry_at(mem, t1->0, pt_index_of(v)));
    }
}

proof fn lemma_graft_shape(
    mem: Map<u64, u64>,
    after: Map<u64, u64>,
    root: u64,
    donor: u64,
    index: u16,
    low: u64,
    limit: u64,
)
    requires
        tables_wf(mem, root, limit),
        tables_wf(mem, donor, low),
        tables_above(mem, root, low),
        low <= limit,
        after.dom() == mem.dom(),
        forall|v: u64, l: int|
            1 <= l <= 4 ==> #[trigger] table_of(after, root, v, l) == grafted_table_of(
                mem,
                root,
                donor,
                index,
                v,
                l,
            ),
    ensures
        tables_wf(after, root, limit),
{
    assert forall|v: u64, l: int| 1 <= l <= 4 implies match #[trigger] table_of(
        after,
        root,
        v,
        l,
    ) {
        Some(table) => frame_addr(table) && frame_backed(after, table) && table < limit,
        None => true,
    } by {
        assert(table_of(after, root, v, l) == grafted_table_of(mem, root, donor, index, v, l));
        let t = table_of(mem, root, v, l);
        let d = table_of(mem, donor, v, l);
    }
    assert forall|a: u64, i: int, b: u64, j: int|
        1 <= i <= 4 && 1 <= j <= 4 && table_of(after, root, a, i) is Some && #[trigger] table_of(
            after,
            root,
            a,
            i,
        ) == #[trigger] table_of(after, root, b, j) implies i == j && prefix_of(a, i)
        == prefix_of(b, j) by {
        assert(table_of(after, root, a, i) == grafted_table_of(mem, root, donor, index, a, i));
        assert(table_of(after, root, b, j) == grafted_table_of(mem, root, donor, index, b, j));
        let ta = table_of(mem, root, a, i);
        let tb = table_of(mem, root, b, j);
        let da = table_of(mem, donor, a, i);
        let db = table_of(mem, donor, b, j);
    }
}

/// Copying an entry of the PML4 of one well-formed hierarchy into the PML4
/// of another, whose tables all lie above those of the first, hangs what
/// the first hierarchy has under that entry into the second: the second
/// stays well formed, the addresses that go through the entry map as they
/// do in the first hierarchy, and all others as before.
pub proof fn lemma_graft(
    mem: Map<u64, u64>,
    after: Map<u64, u64>,
    root: u64,
    donor: u64,
    index: u16,
    low: u64,
    limit: u64,
)
    requires
        tables_wf(mem, root, limit),
        tables_wf(mem, donor, low),
        tables_above(mem, root, low),
        low <= limit,
        index < 512,
        after == mem.insert(slot(root, index), entry_at(mem, donor, index)),
    ensures
        tables_wf(after, root, limit),
        after.dom() == mem.dom(),
        forall|v: u64, l: int|
            1 <= l <= 4 ==> #[trigger] table_of(after, root, v, l) == grafted_table_of(
                mem,
                root,
                donor,
                index,
                v,
                l,
            ),
        forall|v: u64| #[trigger]
            leaf_of(after, root, v) == grafted_leaf_of(mem, root, donor, index, v),
{
    assert(table_of(mem, root, 0, 4) == Some(root));
    lemma_entries_set(mem, root, index, entry_at(mem, donor, index));
    assert forall|v: u64, l: int| 1 <= l <= 4 implies #[trigger] table_of(after, root, v, l)
        == grafted_table_of(mem, root, donor, index, v, l) by {
        lemma_graft_walk(mem, after, root, donor, index, low, limit, v);
    }
    assert forall|v: u64| #[trigger]
        leaf_of(after, root, v) == grafted_leaf_of(mem, root, donor, index, v) by {
        lemma_graft_walk(mem, after, root, donor, index, low, limit, v);
    }
    lemma_graft_shape(mem, after, root, donor, index, low, limit);
}

/// Whether `a` and `b` select the same entry of the same table at `level`.
pub open spec fn same_entry(a: u64, b: u64, level: int) -> bool {
    prefix_of(a, level) == prefix_of(b, level) && index_of(a, level) == index_of(b, level)
}

/// What the mapping of `v` is once the entry that `virt` selects in its
/// table at `level`, a PD or a PDP, is set to the page entry `entry`.
pub open spec fn page_set(
    before: Map<u64, u64>,
    root: u64,
    virt: u64,
    level: int,
    entry: u64,
    v: u64,
) -> Option<(u64, int)> {
    if same_entry(v, virt, level) {
        if entry_present(entry) {
            Some((entry, level))
        } else {
            None
        }
    } else {
        leaf_of(before, root, v)
    }
}

proof fn lemma_set_page_walk(
    before: Map<u64, u64>,
    after: Map<u64, u64>,
    root: u64,
    limit: u64,
    virt: u64,
    level: int,
    table: u64,
    entry: u64,
    v: u64,
)
    requires
        tables_wf(before, root, limit),
        2 <= level <= 3,
        table_of(before, root, virt, level) == Some(table),
        child(before, table, index_of(virt, level)) is None,
        !entry_present(entry) || entry_huge(entry),
        entries_set(before, after, table, index_of(virt, level), entry),
    ensures
        forall|l: int|
            1 <= l <= 4 ==> #[trigger] table_of(after, root, v, l) == table_of(before, root, v, l),
        leaf_of(after, root, v) == page_set(before, root, virt, level, entry, v),
{
    let index = index_of(virt, level);
    let t3 = table_of(before, root, v, 3);
    let t2 = table_of(before, root, v, 2);
    let t1 = table_of(before, root, v, 1);
    let p = table_of(before, root, virt, level);
    assert(table_of(before, root, v, 4) == Some(root));
    assert(frame_addr(root) && root != table);
    assert(entry_at(after, root, pml4_index_of(v)) == entry_at(before, root, pml4_index_of(v)));
    assert(table_of(after, root, v, 3) == t3);
    if t3 is Some {
        let t = t3->0;
        assert(frame_addr(t));
        if t == table {
            assert(level == 3 && prefix_of(v, 3) == prefix_of(virt, 3));
        }
        assert(entry_at(after, t, pdp_index_of(v)) == if t == table && pdp_index_of(v) == index {
            entry
        } else {
            entry_at(before, t, pdp_index_of(v))
        });
    }
    assert(table_of(after, root, v, 2) == t2);
    if t2 is Some {
        let t = t2->0;
        assert(frame_addr(t));
        if t == table {
            assert(level == 2 && prefix_of(v, 2) == prefix_of(virt, 2));
        }
        assert(entry_at(after, t, pd_index_of(v)) == if t == table && pd_index_of(v) == index {
            entry
        } else {
            entry_at(before, t, pd_index_of(v))
        });
    }
    assert(table_of(after, root, v, 1) == t1);
    if t1 is Some {
        let t = t1->0;
        assert(frame_addr(t) && t != table);
        assert(entry_at(after, t, pt_index_of(v)) == entry_at(before, t, pt_index_of(v)));
    }
    if same_entry(v, virt, level) {
        lemma_same_prefix(before, root, v, virt, level);
    }
}

/// Setting an entry of a PD or a PDP that referenced no table to a page
/// entry, in a well-formed hierarchy, changes what the addresses under
/// that entry map to and nothing else.
pub proof fn lemma_set_page(
    before: Map<u64, u64>,
    after: Map<u64, u64>,
    root: u64,
    limit: u64,
    virt: u64,
    level: int,
    table: u64,
    entry: u64,
)
    requires
        tables_wf(before, root, limit),
        2 <= level <= 3,
        table_of(before, root, virt, level) == Some(table),
        child(before, table, index_of(virt, level)) is None,
        !entry_present(entry) || entry_huge(entry),
        after == before.insert(slot(table, index_of(virt, level)), entry),
    ensures
        tables_wf(after, root, limit),
        after.dom() == before.dom(),
        forall|v: u64, l: int|
            1 <= l <= 4 ==> #[trigger] table_of(after, root, v, l) == table_of(before, root, v, l),
        forall|v: u64| #[trigger]
            leaf_of(after, root, v) == page_set(before, root, virt, level, entry, v),
{
    let index = index_of(virt, level);
    assert(table_of(before, root, virt, level) is Some);
    assert(frame_addr(table) && frame_backed(before, table));
    lemma_entries_set(before, table, index, entry);
    assert forall|v: u64, l: int| 1 <= l <= 4 implies #[trigger] table_of(after, root, v, l)
        == table_of(before, root, v, l) by {
        lemma_set_page_walk(before, after, root, limit, virt, level, table, entry, v);
    }
    assert forall|v: u64| #[trigger]
        leaf_of(after, root, v) == page_set(before, root, virt, level, entry, v) by {
        lemma_set_page_walk(before, after, root, limit, virt, level, table, entry, v);
    }
    lemma_same_tables_wf(before, after, root, limit);
}

} // verus!
