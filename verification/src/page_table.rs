//! The four-level page table.
//!
//! Each table is a 512-entry array occupying one zeroed 4K frame taken from
//! the physical allocator. An entry is empty, points at a child table, or is
//! a block leaf whose size matches its level (a leaf at the lowest level is
//! a 4K small page, one level up a 2M block, another level up a 1G block).
//! The child tables live in per-level arenas inside the structure, so the
//! pointer graph the hardware would walk is explicit data here.

use vstd::prelude::*;

verus! {

use vstd::pervasive::VecAdditionalExecFns;

use crate::addr::{Frame, Page, PageSize};
use crate::error::KernelError;
use crate::physical::{lemma_first_fit_4k, lemma_free_nonneg, spec_free_bytes, PhysicalMemory};

/// Highest virtual address bit the translation covers: addresses are 48
/// bits wide.
pub const MAX_VADDR: u64 = 0x1_0000_0000_0000;

/// Leaf entries carry a valid bit.
pub const FLAG_PRESENT: u64 = 0x1;

/// Added to the caller's flags for leaves at the lowest level.
pub const FLAG_SMALL_PAGE: u64 = 0x2;

/// Device memory attribute, used for MMIO mappings.
pub const FLAG_DEVICE: u64 = 0x4;

/// The mapping is reachable from user mode.
pub const FLAG_USER: u64 = 0x40;

/// Writes are not permitted.
pub const FLAG_NO_WRITE: u64 = 0x80;

/// Instruction fetches are not permitted.
pub const FLAG_NO_EXEC: u64 = 0x400;

/// Flags for an intermediate entry that points at a child table.
pub fn page_table_flags() -> (r: u64)
    ensures
        r == FLAG_PRESENT,
{
    FLAG_PRESENT
}

/// Flags for kernel read-write data mappings.
pub fn kernel_data_flags() -> (r: u64)
    ensures
        r == FLAG_PRESENT | FLAG_NO_EXEC,
{
    FLAG_PRESENT | FLAG_NO_EXEC
}

/// Flags for user code mappings.
pub fn user_code_flags() -> (r: u64)
    ensures
        r == FLAG_PRESENT | FLAG_USER | FLAG_NO_WRITE,
{
    FLAG_PRESENT | FLAG_USER | FLAG_NO_WRITE
}

/// Flags for user read-write data mappings.
pub fn user_data_flags() -> (r: u64)
    ensures
        r == FLAG_PRESENT | FLAG_USER | FLAG_NO_EXEC,
{
    FLAG_PRESENT | FLAG_USER | FLAG_NO_EXEC
}

/// Flags for device (MMIO) mappings.
pub fn device_flags() -> (r: u64)
    ensures
        r == FLAG_PRESENT | FLAG_DEVICE | FLAG_NO_EXEC,
{
    FLAG_PRESENT | FLAG_DEVICE | FLAG_NO_EXEC
}

/// The child-table index an entry points at, if it is a table pointer.
pub open spec fn entry_child(e: Entry) -> Option<usize> {
    match e {
        Entry::NextTable { idx } => Some(idx),
        _ => None,
    }
}

/// `a` and `b` lie in the same page of the given size.
pub open spec fn spec_same_page(size: PageSize, a: u64, b: u64) -> bool {
    (a >> size.spec_log_bytes() as u64) == (b >> size.spec_log_bytes() as u64)
}

/// The flags actually written into a leaf: the lowest level carries the
/// small-page bit in addition to the caller's flags.
pub open spec fn spec_leaf_flags(size: PageSize, flags: u64) -> u64 {
    if size == PageSize::Size4K {
        flags | FLAG_SMALL_PAGE
    } else {
        flags
    }
}

/// One page-table entry.
#[derive(Clone, Copy, Debug, PartialEq, Eq, Structural)]
pub enum Entry {
    /// Nothing mapped here.
    Empty,
    /// Points at a child table, held in the next lower level's arena.
    NextTable { idx: usize },
    /// A leaf mapping a block of this level's size.
    Block { base: u64, flags: u64 },
    /// The one top-level slot that mirrors the kernel's own table, shared
    /// by reference rather than copied; it is cleared, never freed.
    KernelWindow,
}

/// One 512-entry table together with the 4K frame that backs it.
pub struct Table {
    pub frame: u64,
    pub entries: Vec<Entry>,
}

/// Index of `va` within the table at the given level (counted with the
/// top level as 4, as the walk does).
pub open spec fn spec_get_index(level: nat, va: u64) -> nat {
    ((va >> ((level - 1) * 9 + 12) as u64) & 0x1ff) as nat
}

/// Extract the 9-bit index the walk uses at a level.
pub fn get_index(level: u64, va: u64) -> (r: usize)
    requires
        1 <= level <= 4,
    ensures
        r == spec_get_index(level as nat, va),
        r < 512,
{
    proof {
        assert((va >> (((level - 1) * 9 + 12) as u64)) & 0x1ff < 512) by (bit_vector);
    }
    (((va >> ((level - 1) * 9 + 12)) & 0x1ff)) as usize
}

/// Overwrite entry `i` of table `t` in an arena, leaving every other table
/// and the table's backing frame untouched.
fn set_entry(ts: &mut Vec<Table>, t: usize, i: usize, e: Entry)
    requires
        t < old(ts)@.len(),
        i < old(ts)@[t as int].entries@.len(),
    ensures
        final(ts)@.len() == old(ts)@.len(),
        final(ts)@[t as int].frame == old(ts)@[t as int].frame,
        final(ts)@[t as int].entries@ == old(ts)@[t as int].entries@.update(i as int, e),
        forall|k: int| 0 <= k < old(ts)@.len() && k != t ==> final(ts)@[k] == old(ts)@[k],
{
    let mut tbl = Table { frame: 0, entries: Vec::new() };
    ts.set_and_swap(t, &mut tbl);
    tbl.entries.set(i, e);
    ts.set_and_swap(t, &mut tbl);
}

/// A fresh table with all 512 entries empty, backed by `frame`.
fn new_table(frame: u64) -> (t: Table)
    ensures
        t.frame == frame,
        t.entries@.len() == 512,
        forall|i: int| 0 <= i < 512 ==> t.entries@[i] == Entry::Empty,
{
    let mut entries: Vec<Entry> = Vec::new();
    let mut i: usize = 0;
    while i < 512
        invariant
            0 <= i <= 512,
            entries@.len() == i,
            forall|k: int| 0 <= k < i ==> entries@[k] == Entry::Empty,
        decreases 512 - i,
    {
        entries.push(Entry::Empty);
        i = i + 1;
    }
    Table { frame, entries }
}

/// The whole four-level structure rooted in one top-level table.
pub struct PageTable {
    /// The root (level-4) table.
    pub root: Table,
    /// Level-3 tables, referenced by index from the root.
    pub l3s: Vec<Table>,
    /// Level-2 tables, referenced by index from level 3.
    pub l2s: Vec<Table>,
    /// Level-1 tables, referenced by index from level 2.
    pub l1s: Vec<Table>,
}

impl PageTable {
    /// Entries of `t` only point below `bound` in the next arena, and
    /// blocks are aligned to `b` bytes. The top level holds no blocks.
    pub open spec fn table_wf(t: Table, bound: int, block_bytes: int) -> bool {
        &&& t.entries@.len() == 512
        &&& forall|i: int|
            0 <= i < 512 ==> match #[trigger] t.entries@[i] {
                Entry::Empty => true,
                Entry::NextTable { idx } => idx < bound,
                Entry::Block { base, flags } => block_bytes > 0 && base as int % block_bytes == 0,
                Entry::KernelWindow => true,
            }
    }

    pub open spec fn tables_wf(self) -> bool {
        &&& Self::table_wf(self.root, self.l3s@.len() as int, 0)
        &&& forall|t: int|
            0 <= t < self.l3s@.len() ==> Self::table_wf(
                #[trigger] self.l3s@[t],
                self.l2s@.len() as int,
                0x4000_0000,
            )
        &&& forall|t: int|
            0 <= t < self.l2s@.len() ==> Self::table_wf(
                #[trigger] self.l2s@[t],
                self.l1s@.len() as int,
                0x20_0000,
            )
        &&& forall|t: int|
            0 <= t < self.l1s@.len() ==> Self::table_wf(#[trigger] self.l1s@[t], 0, 0x1000)
    }

    /// No child table is pointed at twice: each table is owned by exactly
    /// one entry of the level above, as one frame belongs to one table.
    pub open spec fn inj(self) -> bool {
        &&& forall|a: int, b: int|
            0 <= a < 512 && 0 <= b < 512 && a != b && (#[trigger] entry_child(
                self.root.entries@[a],
            )) is Some ==> entry_child(self.root.entries@[a]) != #[trigger] entry_child(
                self.root.entries@[b],
            )
        &&& forall|ta: int, ia: int, tb: int, ib: int|
            0 <= ta < self.l3s@.len() && 0 <= ia < 512 && 0 <= tb < self.l3s@.len() && 0 <= ib
                < 512 && (ta != tb || ia != ib) && (#[trigger] entry_child(
                self.l3s@[ta].entries@[ia],
            )) is Some ==> entry_child(self.l3s@[ta].entries@[ia]) != #[trigger] entry_child(
                self.l3s@[tb].entries@[ib],
            )
        &&& forall|ta: int, ia: int, tb: int, ib: int|
            0 <= ta < self.l2s@.len() && 0 <= ia < 512 && 0 <= tb < self.l2s@.len() && 0 <= ib
                < 512 && (ta != tb || ia != ib) && (#[trigger] entry_child(
                self.l2s@[ta].entries@[ia],
            )) is Some ==> entry_child(self.l2s@[ta].entries@[ia]) != #[trigger] entry_child(
                self.l2s@[tb].entries@[ib],
            )
    }

    pub open spec fn wf(self) -> bool {
        self.tables_wf() && self.inj()
    }

    /// What the hardware walk would return for a virtual address and page
    /// size: the mapped block base and its flags, or nothing if the walk
    /// meets an empty slot, a block of the wrong size, or the shared
    /// kernel window.
    pub open spec fn spec_translate(self, size: PageSize, va: u64) -> Option<(u64, u64)> {
        match self.root.entries@[spec_get_index(4, va) as int] {
            Entry::NextTable { idx: t3 } => match self.l3s@[t3 as int].entries@[spec_get_index(
                3,
                va,
            ) as int] {
                Entry::Block { base, flags } => if size == PageSize::Size1G {
                    Some((base, flags))
                } else {
                    None
                },
                Entry::NextTable { idx: t2 } => if size == PageSize::Size1G {
                    None
                } else {
                    match self.l2s@[t2 as int].entries@[spec_get_index(2, va) as int] {
                        Entry::Block { base, flags } => if size == PageSize::Size2M {
                            Some((base, flags))
                        } else {
                            None
                        },
                        Entry::NextTable { idx: t1 } => if size == PageSize::Size2M {
                            None
                        } else {
                            match self.l1s@[t1 as int].entries@[spec_get_index(1, va) as int] {
                                Entry::Block { base, flags } => Some((base, flags)),
                                _ => None,
                            }
                        },
                        _ => None,
                    }
                },
                _ => None,
            },
            _ => None,
        }
    }

    /// The walk towards `va` meets only empty slots or table pointers, and
    /// the leaf slot itself is empty: mapping here will not overwrite an
    /// existing mapping nor run into a block at the wrong level.
    pub open spec fn spec_path_clear(self, size: PageSize, va: u64) -> bool {
        match self.root.entries@[spec_get_index(4, va) as int] {
            Entry::Empty => true,
            Entry::NextTable { idx: t3 } => match self.l3s@[t3 as int].entries@[spec_get_index(
                3,
                va,
            ) as int] {
                Entry::Empty => true,
                Entry::NextTable { idx: t2 } => if size == PageSize::Size1G {
                    false
                } else {
                    match self.l2s@[t2 as int].entries@[spec_get_index(2, va) as int] {
                        Entry::Empty => true,
                        Entry::NextTable { idx: t1 } => if size == PageSize::Size2M {
                            false
                        } else {
                            self.l1s@[t1 as int].entries@[spec_get_index(1, va) as int]
                                is Empty
                        },
                        _ => false,
                    }
                },
                _ => false,
            },
            _ => false,
        }
    }

    /// How many intermediate tables the walk towards `va` still has to
    /// allocate before the leaf for this page size can be written.
    pub open spec fn spec_missing_tables(self, size: PageSize, va: u64) -> nat {
        let below: nat = match size {
            PageSize::Size1G => 0,
            PageSize::Size2M => 1,
            PageSize::Size4K => 2,
        };
        match self.root.entries@[spec_get_index(4, va) as int] {
            Entry::Empty => below + 1,
            Entry::NextTable { idx: t3 } => if size == PageSize::Size1G {
                0
            } else {
                match self.l3s@[t3 as int].entries@[spec_get_index(3, va) as int] {
                    Entry::Empty => below,
                    Entry::NextTable { idx: t2 } => if size == PageSize::Size2M {
                        0
                    } else {
                        match self.l2s@[t2 as int].entries@[spec_get_index(2, va) as int] {
                            Entry::Empty => 1,
                            _ => 0,
                        }
                    },
                    _ => 0,
                }
            },
            _ => 0,
        }
    }

    /// Count the tables `map` would still have to allocate for this page.
    pub fn missing_tables(&self, size: PageSize, va: u64) -> (r: u64)
        requires
            self.wf(),
        ensures
            r == self.spec_missing_tables(size, va),
            r <= 3,
    {
        let below: u64 = match size {
            PageSize::Size1G => 0,
            PageSize::Size2M => 1,
            PageSize::Size4K => 2,
        };
        let i4 = get_index(4, va);
        match self.root.entries[i4] {
            Entry::Empty => below + 1,
            Entry::NextTable { idx: t3 } => {
                if matches!(size, PageSize::Size1G) {
                    0
                } else {
                    let i3 = get_index(3, va);
                    match self.l3s[t3].entries[i3] {
                        Entry::Empty => below,
                        Entry::NextTable { idx: t2 } => {
                            if matches!(size, PageSize::Size2M) {
                                0
                            } else {
                                let i2 = get_index(2, va);
                                match self.l2s[t2].entries[i2] {
                                    Entry::Empty => 1,
                                    _ => 0,
                                }
                            }
                        },
                        _ => 0,
                    }
                }
            },
            _ => 0,
        }
    }

    /// Allocate one 4K frame, zero it, and return it interpreted as a
    /// fresh, empty top-level table. Fails exactly when no frame is free.
    #[verifier::rlimit(100)]
    pub fn alloc_root(physical: &mut PhysicalMemory) -> (r: Result<PageTable, KernelError>)
        requires
            old(physical).wf(),
        ensures
            final(physical).wf(),
            final(physical).initial_bytes == old(physical).initial_bytes,
            match r {
                Ok(pt) => {
                    &&& pt.wf()
                    &&& forall|sz: PageSize, va: u64|
                        pt.spec_translate(sz, va) is None
                    &&& forall|i: int| 0 <= i < 512 ==> pt.root.entries@[i] is Empty
                    &&& pt.l3s@.len() == 0
                    &&& pt.l2s@.len() == 0
                    &&& pt.l1s@.len() == 0
                    &&& spec_free_bytes(final(physical).ranges@) == spec_free_bytes(
                        old(physical).ranges@,
                    ) - 0x1000
                    &&& final(physical).outstanding == old(physical).outstanding + 1
                },
                Err(e) => {
                    &&& e == KernelError::OutOfMemory
                    &&& final(physical).ranges@ == old(physical).ranges@
                    &&& final(physical).outstanding == old(physical).outstanding
                },
            },
            r is Err <==> spec_free_bytes(old(physical).ranges@) == 0,
    {
        proof {
            lemma_first_fit_4k(physical.ranges@);
        }
        match physical.acquire(PageSize::Size4K) {
            Some(frame) => {
                let root = new_table(frame.base);
                let pt = PageTable { root, l3s: Vec::new(), l2s: Vec::new(), l1s: Vec::new() };
                proof {
                    assert forall|sz: PageSize, va: u64| pt.spec_translate(sz, va) is None by {
                        lemma_index_bound(4, va);
                        assert(pt.root.entries@[spec_get_index(4, va) as int] == Entry::Empty);
                    }
                    assert(PageTable::table_wf(pt.root, 0, 0)) by {
                        assert(forall|i: int| 0 <= i < 512 ==> pt.root.entries@[i] == Entry::Empty);
                    }
                    assert(pt.tables_wf());
                    assert(pt.inj()) by {
                        assert(forall|a: int|
                            0 <= a < 512 ==> entry_child(#[trigger] pt.root.entries@[a]) is None);
                    }
                }
                Ok(pt)
            },
            None => Err(KernelError::OutOfMemory),
        }
    }

    /// Make sure the root slot `i4` points at a level-3 table, allocating
    /// a fresh zeroed one if the slot is empty. No translation changes.
    #[verifier::rlimit(100)]
    fn ensure_l3(&mut self, i4: usize, physical: &mut PhysicalMemory) -> (r: usize)
        requires
            old(self).wf(),
            old(physical).wf(),
            i4 < 512,
            entry_child(old(self).root.entries@[i4 as int]) is Some || (old(self).root.entries@[i4 as int] is Empty && old(physical).ranges@.len() > 0),
        ensures
            final(self).wf(),
            final(physical).wf(),
            final(physical).initial_bytes == old(physical).initial_bytes,
            r < final(self).l3s@.len(),
            entry_child(final(self).root.entries@[i4 as int]) == Some(r),
            forall|k: int|
                0 <= k < 512 && k != i4 ==> final(self).root.entries@[k] == old(self).root.entries@[k],
            final(self).l2s == old(self).l2s,
            final(self).l1s == old(self).l1s,
            entry_child(old(self).root.entries@[i4 as int]) is Some ==> {
                &&& final(self).root == old(self).root
                &&& final(self).l3s == old(self).l3s
                &&& Some(r) == entry_child(old(self).root.entries@[i4 as int])
                &&& final(physical).ranges@ == old(physical).ranges@
                &&& final(physical).outstanding == old(physical).outstanding
            },
            old(self).root.entries@[i4 as int] is Empty ==> {
                &&& r == old(self).l3s@.len()
                &&& final(self).l3s@.len() == old(self).l3s@.len() + 1
                &&& forall|t: int|
                    0 <= t < old(self).l3s@.len() ==> final(self).l3s@[t] == old(self).l3s@[t]
                &&& forall|i: int|
                    0 <= i < 512 ==> final(self).l3s@[r as int].entries@[i] == Entry::Empty
                &&& spec_free_bytes(final(physical).ranges@) == spec_free_bytes(
                    old(physical).ranges@,
                ) - 0x1000
                &&& final(physical).outstanding == old(physical).outstanding + 1
            },
            forall|sz: PageSize, va: u64|
                final(self).spec_translate(sz, va) == old(self).spec_translate(sz, va),
    {
        let ghost pt0 = *self;
        match self.root.entries[i4] {
            Entry::NextTable { idx } => idx,
            Entry::Empty => {
                proof {
                    lemma_first_fit_4k(physical.ranges@);
                }
                let frame = match physical.acquire(PageSize::Size4K) {
                    Some(f) => f,
                    None => unreached(),
                };
                let t = new_table(frame.base);
                let r = self.l3s.len();
                self.l3s.push(t);
                self.root.entries.set(i4, Entry::NextTable { idx: r });
                proof {
                    let pt1 = *self;
                    assert(PageTable::table_wf(pt1.root, pt1.l3s@.len() as int, 0)) by {
                        assert(forall|i: int|
                            0 <= i < 512 && i != i4 ==> pt1.root.entries@[i] == pt0.root.entries@[i]);
                    }
                    assert(pt1.tables_wf()) by {
                        assert(forall|tt: int|
                            0 <= tt < pt0.l3s@.len() ==> pt1.l3s@[tt] == pt0.l3s@[tt]);
                        assert(PageTable::table_wf(pt1.l3s@[r as int], pt1.l2s@.len() as int,
                            0x4000_0000)) by {
                            assert(forall|i: int|
                                0 <= i < 512 ==> pt1.l3s@[r as int].entries@[i] == Entry::Empty);
                        }
                    }
                    assert(pt1.inj()) by {
                        assert(forall|a: int|
                            0 <= a < 512 && a != i4 && entry_child(#[trigger] pt1.root.entries@[a])
                                is Some ==> entry_child(pt1.root.entries@[a])->Some_0 < r);
                        assert(forall|tt: int, ii: int|
                            0 <= tt < pt0.l3s@.len() && 0 <= ii < 512 ==> pt1.l3s@[tt].entries@[ii]
                                == pt0.l3s@[tt].entries@[ii]);
                        assert(forall|ii: int|
                            0 <= ii < 512 ==> entry_child(#[trigger] pt1.l3s@[r as int].entries@[ii])
                                is None);
                    }
                    assert forall|sz: PageSize, va: u64|
                        pt1.spec_translate(sz, va) == pt0.spec_translate(sz, va) by {
                        lemma_index_bound(4, va);
                        lemma_index_bound(3, va);
                        let j4 = spec_get_index(4, va) as int;
                        if j4 == i4 {
                            assert(pt0.root.entries@[j4] is Empty);
                            assert(pt0.spec_translate(sz, va) is None);
                            assert(pt1.root.entries@[j4] == Entry::NextTable { idx: r });
                            assert(pt1.l3s@[r as int].entries@[spec_get_index(3, va) as int]
                                == Entry::Empty);
                            assert(pt1.spec_translate(sz, va) is None);
                        } else {
                            assert(pt1.root.entries@[j4] == pt0.root.entries@[j4]);
                            match pt0.root.entries@[j4] {
                                Entry::NextTable { idx: t3p } => {
                                    assert(t3p < pt0.l3s@.len());
                                    assert(pt1.l3s@[t3p as int] == pt0.l3s@[t3p as int]);
                                },
                                _ => {},
                            }
                        }
                    }
                }
                r
            },
            _ => unreached(),
        }
    }

    /// Make sure slot `i3` of level-3 table `t3` points at a level-2
    /// table, allocating a fresh zeroed one if the slot is empty. No
    /// translation changes.
    #[verifier::rlimit(100)]
    fn ensure_l2(&mut self, t3: usize, i3: usize, physical: &mut PhysicalMemory) -> (r: usize)
        requires
            old(self).wf(),
            old(physical).wf(),
            t3 < old(self).l3s@.len(),
            i3 < 512,
            entry_child(old(self).l3s@[t3 as int].entries@[i3 as int]) is Some || (old(self).l3s@[t3 as int].entries@[i3 as int] is Empty && old(physical).ranges@.len() > 0),
        ensures
            final(self).wf(),
            final(physical).wf(),
            final(physical).initial_bytes == old(physical).initial_bytes,
            r < final(self).l2s@.len(),
            final(self).root == old(self).root,
            final(self).l1s == old(self).l1s,
            final(self).l3s@.len() == old(self).l3s@.len(),
            entry_child(final(self).l3s@[t3 as int].entries@[i3 as int]) == Some(r),
            forall|t: int, i: int|
                0 <= t < old(self).l3s@.len() && 0 <= i < 512 && (t != t3 || i != i3) ==> final(self).l3s@[t].entries@[i] == old(self).l3s@[t].entries@[i],
            forall|t: int|
                0 <= t < old(self).l3s@.len() ==> final(self).l3s@[t].frame == old(self).l3s@[t].frame && final(self).l3s@[t].entries@.len() == 512,
            entry_child(old(self).l3s@[t3 as int].entries@[i3 as int]) is Some ==> {
                &&& final(self).l3s == old(self).l3s
                &&& final(self).l2s == old(self).l2s
                &&& Some(r) == entry_child(old(self).l3s@[t3 as int].entries@[i3 as int])
                &&& final(physical).ranges@ == old(physical).ranges@
                &&& final(physical).outstanding == old(physical).outstanding
            },
            old(self).l3s@[t3 as int].entries@[i3 as int] is Empty ==> {
                &&& r == old(self).l2s@.len()
                &&& final(self).l2s@.len() == old(self).l2s@.len() + 1
                &&& forall|t: int|
                    0 <= t < old(self).l2s@.len() ==> final(self).l2s@[t] == old(self).l2s@[t]
                &&& forall|i: int|
                    0 <= i < 512 ==> final(self).l2s@[r as int].entries@[i] == Entry::Empty
                &&& spec_free_bytes(final(physical).ranges@) == spec_free_bytes(
                    old(physical).ranges@,
                ) - 0x1000
                &&& final(physical).outstanding == old(physical).outstanding + 1
            },
            forall|sz: PageSize, va: u64|
                final(self).spec_translate(sz, va) == old(self).spec_translate(sz, va),
    {
        let ghost pt0 = *self;
        let e = {
            let tref = &self.l3s[t3];
            tref.entries[i3]
        };
        match e {
            Entry::NextTable { idx } => idx,
            Entry::Empty => {
                proof {
                    lemma_first_fit_4k(physical.ranges@);
                }
                let frame = match physical.acquire(PageSize::Size4K) {
                    Some(f) => f,
                    None => unreached(),
                };
                let t = new_table(frame.base);
                let r = self.l2s.len();
                self.l2s.push(t);
                set_entry(&mut self.l3s, t3, i3, Entry::NextTable { idx: r });
                proof {
                    let pt1 = *self;
                    assert(pt1.tables_wf()) by {
                        assert(PageTable::table_wf(pt1.l3s@[t3 as int], pt1.l2s@.len() as int,
                            0x4000_0000)) by {
                            assert(forall|i: int|
                                0 <= i < 512 && i != i3 ==> pt1.l3s@[t3 as int].entries@[i] == pt0
                                    .l3s@[t3 as int].entries@[i]);
                        }
                        assert(forall|tt: int|
                            0 <= tt < pt0.l3s@.len() && tt != t3 ==> pt1.l3s@[tt] == pt0.l3s@[tt]);
                        assert(forall|tt: int|
                            0 <= tt < pt0.l2s@.len() ==> pt1.l2s@[tt] == pt0.l2s@[tt]);
                        assert(PageTable::table_wf(pt1.l2s@[r as int], pt1.l1s@.len() as int,
                            0x20_0000)) by {
                            assert(forall|i: int|
                                0 <= i < 512 ==> pt1.l2s@[r as int].entries@[i] == Entry::Empty);
                        }
                    }
                    assert(pt1.inj()) by {
                        assert(forall|tt: int, ii: int|
                            0 <= tt < pt1.l3s@.len() && 0 <= ii < 512 && (tt != t3 || ii != i3)
                                && entry_child(#[trigger] pt1.l3s@[tt].entries@[ii]) is Some
                                ==> entry_child(pt1.l3s@[tt].entries@[ii])->Some_0 < r);
                        assert(forall|tt: int, ii: int|
                            0 <= tt < pt0.l2s@.len() && 0 <= ii < 512 ==> pt1.l2s@[tt].entries@[ii]
                                == pt0.l2s@[tt].entries@[ii]);
                        assert(forall|ii: int|
                            0 <= ii < 512 ==> entry_child(#[trigger] pt1.l2s@[r as int].entries@[ii])
                                is None);
                    }
                    assert forall|sz: PageSize, va: u64|
                        pt1.spec_translate(sz, va) == pt0.spec_translate(sz, va) by {
                        lemma_index_bound(4, va);
                        lemma_index_bound(3, va);
                        lemma_index_bound(2, va);
                        let j4 = spec_get_index(4, va) as int;
                        let j3 = spec_get_index(3, va) as int;
                        match pt0.root.entries@[j4] {
                            Entry::NextTable { idx: t3p } => {
                                assert(t3p < pt0.l3s@.len());
                                if t3p == t3 && j3 == i3 {
                                    assert(pt0.l3s@[t3 as int].entries@[i3 as int] is Empty);
                                    assert(pt0.spec_translate(sz, va) is None);
                                    assert(pt1.l3s@[t3 as int].entries@[i3 as int]
                                        == Entry::NextTable { idx: r });
                                    assert(pt1.l2s@[r as int].entries@[spec_get_index(2, va) as int]
                                        == Entry::Empty);
                                    assert(pt1.spec_translate(sz, va) is None);
                                } else {
                                    assert(pt1.l3s@[t3p as int].entries@[j3] == pt0
                                        .l3s@[t3p as int].entries@[j3]);
                                    match pt0.l3s@[t3p as int].entries@[j3] {
                                        Entry::NextTable { idx: t2p } => {
                                            assert(t2p < pt0.l2s@.len());
                                            assert(pt1.l2s@[t2p as int] == pt0.l2s@[t2p as int]);
                                        },
                                        _ => {},
                                    }
                                }
                            },
                            _ => {},
                        }
                    }
                }
                r
            },
            _ => unreached(),
        }
    }

    /// Make sure slot `i2` of level-2 table `t2` points at a level-1
    /// table, allocating a fresh zeroed one if the slot is empty. No
    /// translation changes.
    #[verifier::rlimit(100)]
    fn ensure_l1(&mut self, t2: usize, i2: usize, physical: &mut PhysicalMemory) -> (r: usize)
        requires
            old(self).wf(),
            old(physical).wf(),
            t2 < old(self).l2s@.len(),
            i2 < 512,
            entry_child(old(self).l2s@[t2 as int].entries@[i2 as int]) is Some || (old(self).l2s@[t2 as int].entries@[i2 as int] is Empty && old(physical).ranges@.len() > 0),
        ensures
            final(self).wf(),
            final(physical).wf(),
            final(physical).initial_bytes == old(physical).initial_bytes,
            r < final(self).l1s@.len(),
            final(self).root == old(self).root,
            final(self).l3s == old(self).l3s,
            final(self).l2s@.len() == old(self).l2s@.len(),
            entry_child(final(self).l2s@[t2 as int].entries@[i2 as int]) == Some(r),
            forall|t: int, i: int|
                0 <= t < old(self).l2s@.len() && 0 <= i < 512 && (t != t2 || i != i2) ==> final(self).l2s@[t].entries@[i] == old(self).l2s@[t].entries@[i],
            forall|t: int|
                0 <= t < old(self).l2s@.len() ==> final(self).l2s@[t].frame == old(self).l2s@[t].frame && final(self).l2s@[t].entries@.len() == 512,
            entry_child(old(self).l2s@[t2 as int].entries@[i2 as int]) is Some ==> {
                &&& final(self).l2s == old(self).l2s
                &&& final(self).l1s == old(self).l1s
                &&& Some(r) == entry_child(old(self).l2s@[t2 as int].entries@[i2 as int])
                &&& final(physical).ranges@ == old(physical).ranges@
                &&& final(physical).outstanding == old(physical).outstanding
            },
            old(self).l2s@[t2 as int].entries@[i2 as int] is Empty ==> {
                &&& r == old(self).l1s@.len()
                &&& final(self).l1s@.len() == old(self).l1s@.len() + 1
                &&& forall|t: int|
                    0 <= t < old(self).l1s@.len() ==> final(self).l1s@[t] == old(self).l1s@[t]
                &&& forall|i: int|
                    0 <= i < 512 ==> final(self).l1s@[r as int].entries@[i] == Entry::Empty
                &&& spec_free_bytes(final(physical).ranges@) == spec_free_bytes(
                    old(physical).ranges@,
                ) - 0x1000
                &&& final(physical).outstanding == old(physical).outstanding + 1
            },
            forall|sz: PageSize, va: u64|
                final(self).spec_translate(sz, va) == old(self).spec_translate(sz, va),
    {
        let ghost pt0 = *self;
        let e = {
            let tref = &self.l2s[t2];
            tref.entries[i2]
        };
        match e {
            Entry::NextTable { idx } => idx,
            Entry::Empty => {
                proof {
                    lemma_first_fit_4k(physical.ranges@);
                }
                let frame = match physical.acquire(PageSize::Size4K) {
                    Some(f) => f,
                    None => unreached(),
                };
                let t = new_table(frame.base);
                let r = self.l1s.len();
                self.l1s.push(t);
                set_entry(&mut self.l2s, t2, i2, Entry::NextTable { idx: r });
                proof {
                    let pt1 = *self;
                    assert(pt1.tables_wf()) by {
                        assert(PageTable::table_wf(pt1.l2s@[t2 as int], pt1.l1s@.len() as int,
                            0x20_0000)) by {
                            assert(forall|i: int|
                                0 <= i < 512 && i != i2 ==> pt1.l2s@[t2 as int].entries@[i] == pt0
                                    .l2s@[t2 as int].entries@[i]);
                        }
                        assert(forall|tt: int|
                            0 <= tt < pt0.l2s@.len() && tt != t2 ==> pt1.l2s@[tt] == pt0.l2s@[tt]);
                        assert(forall|tt: int|
                            0 <= tt < pt0.l1s@.len() ==> pt1.l1s@[tt] == pt0.l1s@[tt]);
                        assert(PageTable::table_wf(pt1.l1s@[r as int], 0, 0x1000)) by {
                            assert(forall|i: int|
                                0 <= i < 512 ==> pt1.l1s@[r as int].entries@[i] == Entry::Empty);
                        }
                    }
                    assert(pt1.inj()) by {
                        assert(forall|tt: int, ii: int|
                            0 <= tt < pt1.l2s@.len() && 0 <= ii < 512 && (tt != t2 || ii != i2)
                                && entry_child(#[trigger] pt1.l2s@[tt].entries@[ii]) is Some
                                ==> entry_child(pt1.l2s@[tt].entries@[ii])->Some_0 < r);
                    }
                    assert forall|sz: PageSize, va: u64|
                        pt1.spec_translate(sz, va) == pt0.spec_translate(sz, va) by {
                        lemma_index_bound(4, va);
                        lemma_index_bound(3, va);
                        lemma_index_bound(2, va);
                        lemma_index_bound(1, va);
                        let j4 = spec_get_index(4, va) as int;
                        let j3 = spec_get_index(3, va) as int;
                        let j2 = spec_get_index(2, va) as int;
                        match pt0.root.entries@[j4] {
                            Entry::NextTable { idx: t3p } => {
                                assert(t3p < pt0.l3s@.len());
                                match pt0.l3s@[t3p as int].entries@[j3] {
                                    Entry::NextTable { idx: t2p } => {
                                        assert(t2p < pt0.l2s@.len());
                                        if t2p == t2 && j2 == i2 {
                                            assert(pt0.l2s@[t2 as int].entries@[i2 as int]
                                                is Empty);
                                            assert(pt0.spec_translate(sz, va) is None);
                                            assert(pt1.l2s@[t2 as int].entries@[i2 as int]
                                                == Entry::NextTable { idx: r });
                                            assert(pt1.l1s@[r as int].entries@[spec_get_index(
                                                1,
                                                va,
                                            ) as int] == Entry::Empty);
                                            assert(pt1.spec_translate(sz, va) is None);
                                        } else {
                                            assert(pt1.l2s@[t2p as int].entries@[j2] == pt0
                                                .l2s@[t2p as int].entries@[j2]);
                                            match pt0.l2s@[t2p as int].entries@[j2] {
                                                Entry::NextTable { idx: t1p } => {
                                                    assert(t1p < pt0.l1s@.len());
                                                    assert(pt1.l1s@[t1p as int] == pt0
                                                        .l1s@[t1p as int]);
                                                },
                                                _ => {},
                                            }
                                        }
                                    },
                                    _ => {},
                                }
                            },
                            _ => {},
                        }
                    }
                }
                r
            },
            _ => unreached(),
        }
    }

    /// Write the 1G leaf slot for `va`: the entry becomes `e`, and no
    /// translation outside this 1G page changes.
    #[verifier::rlimit(100)]
    fn set_leaf_1g(&mut self, va: u64, t3: usize, e: Entry)
        requires
            old(self).wf(),
            va < MAX_VADDR,
            entry_child(old(self).root.entries@[spec_get_index(4, va) as int]) == Some(t3),
            old(self).l3s@[t3 as int].entries@[spec_get_index(3, va) as int] is Empty || old(
                self,
            ).l3s@[t3 as int].entries@[spec_get_index(3, va) as int] is Block,
            e is Empty || (e matches Entry::Block { base, flags } && base as int % 0x4000_0000
                == 0),
        ensures
            final(self).wf(),
            final(self).root == old(self).root,
            final(self).l2s == old(self).l2s,
            final(self).l1s == old(self).l1s,
            final(self).l3s@.len() == old(self).l3s@.len(),
            final(self).spec_translate(PageSize::Size1G, va) == (match e {
                Entry::Block { base, flags } => Some((base, flags)),
                _ => None,
            }),
            forall|sz: PageSize, va2: u64|
                va2 < MAX_VADDR && !(sz == PageSize::Size1G && spec_same_page(
                    PageSize::Size1G,
                    va2,
                    va,
                )) ==> final(self).spec_translate(sz, va2) == old(self).spec_translate(sz, va2),
    {
        let ghost pt0 = *self;
        let i4 = get_index(4, va);
        let i3 = get_index(3, va);
        proof {
            assert(t3 < pt0.l3s@.len());
        }
        set_entry(&mut self.l3s, t3, i3, e);
        proof {
            let pt1 = *self;
            assert(pt1.tables_wf()) by {
                assert(PageTable::table_wf(pt1.l3s@[t3 as int], pt1.l2s@.len() as int,
                    0x4000_0000)) by {
                    assert(forall|i: int|
                        0 <= i < 512 && i != i3 ==> pt1.l3s@[t3 as int].entries@[i] == pt0
                            .l3s@[t3 as int].entries@[i]);
                }
                assert(forall|tt: int|
                    0 <= tt < pt0.l3s@.len() && tt != t3 ==> pt1.l3s@[tt] == pt0.l3s@[tt]);
            }
            assert(pt1.inj()) by {
                assert(forall|tt: int, ii: int|
                    0 <= tt < pt1.l3s@.len() && 0 <= ii < 512 && (tt != t3 || ii != i3)
                        ==> pt1.l3s@[tt].entries@[ii] == pt0.l3s@[tt].entries@[ii]);
                assert(entry_child(pt1.l3s@[t3 as int].entries@[i3 as int]) is None);
            }
            assert forall|sz: PageSize, va2: u64|
                va2 < MAX_VADDR && !(sz == PageSize::Size1G && spec_same_page(
                    PageSize::Size1G,
                    va2,
                    va,
                )) implies pt1.spec_translate(sz, va2) == pt0.spec_translate(sz, va2) by {
                lemma_index_bound(4, va2);
                lemma_index_bound(3, va2);
                let j4 = spec_get_index(4, va2) as int;
                let j3 = spec_get_index(3, va2) as int;
                match pt0.root.entries@[j4] {
                    Entry::NextTable { idx: t3p } => {
                        assert(t3p < pt0.l3s@.len());
                        if t3p == t3 && j3 == i3 {
                            assert(entry_child(pt0.root.entries@[j4]) == Some(t3));
                            assert(entry_child(
                                pt0.root.entries@[spec_get_index(4, va) as int],
                            ) == Some(t3));
                            assert(j4 == spec_get_index(4, va) as int);
                            lemma_same_path_1g(va2, va);
                            assert(!spec_same_page(PageSize::Size1G, va2, va) ==> false) by {
                                assert(va2 >> 30 == va >> 30);
                                assert((va2 >> 30 == va >> 30) ==> spec_same_page(
                                    PageSize::Size1G,
                                    va2,
                                    va,
                                ));
                            }
                            assert(sz != PageSize::Size1G);
                            assert(pt0.spec_translate(sz, va2) is None);
                            assert(pt1.spec_translate(sz, va2) is None);
                        } else {
                            assert(pt1.l3s@[t3p as int].entries@[j3] == pt0
                                .l3s@[t3p as int].entries@[j3]);
                        }
                    },
                    _ => {},
                }
            }
        }
    }

    /// Write the 2M leaf slot for `va`: the entry becomes `e`, and no
    /// translation outside this 2M page changes.
    #[verifier::rlimit(100)]
    fn set_leaf_2m(&mut self, va: u64, t3: usize, t2: usize, e: Entry)
        requires
            old(self).wf(),
            va < MAX_VADDR,
            entry_child(old(self).root.entries@[spec_get_index(4, va) as int]) == Some(t3),
            entry_child(old(self).l3s@[t3 as int].entries@[spec_get_index(3, va) as int]) == Some(
                t2,
            ),
            old(self).l2s@[t2 as int].entries@[spec_get_index(2, va) as int] is Empty || old(
                self,
            ).l2s@[t2 as int].entries@[spec_get_index(2, va) as int] is Block,
            e is Empty || (e matches Entry::Block { base, flags } && base as int % 0x20_0000 == 0),
        ensures
            final(self).wf(),
            final(self).root == old(self).root,
            final(self).l3s == old(self).l3s,
            final(self).l1s == old(self).l1s,
            final(self).l2s@.len() == old(self).l2s@.len(),
            final(self).spec_translate(PageSize::Size2M, va) == (match e {
                Entry::Block { base, flags } => Some((base, flags)),
                _ => None,
            }),
            forall|sz: PageSize, va2: u64|
                va2 < MAX_VADDR && !(sz == PageSize::Size2M && spec_same_page(
                    PageSize::Size2M,
                    va2,
                    va,
                )) ==> final(self).spec_translate(sz, va2) == old(self).spec_translate(sz, va2),
    {
        let ghost pt0 = *self;
        let i4 = get_index(4, va);
        let i3 = get_index(3, va);
        let i2 = get_index(2, va);
        proof {
            assert(t3 < pt0.l3s@.len());
            assert(t2 < pt0.l2s@.len());
        }
        set_entry(&mut self.l2s, t2, i2, e);
        proof {
            let pt1 = *self;
            assert(pt1.tables_wf()) by {
                assert(PageTable::table_wf(pt1.l2s@[t2 as int], pt1.l1s@.len() as int, 0x20_0000))
                    by {
                    assert(forall|i: int|
                        0 <= i < 512 && i != i2 ==> pt1.l2s@[t2 as int].entries@[i] == pt0
                            .l2s@[t2 as int].entries@[i]);
                }
                assert(forall|tt: int|
                    0 <= tt < pt0.l2s@.len() && tt != t2 ==> pt1.l2s@[tt] == pt0.l2s@[tt]);
            }
            assert(pt1.inj()) by {
                assert(forall|tt: int, ii: int|
                    0 <= tt < pt1.l2s@.len() && 0 <= ii < 512 && (tt != t2 || ii != i2)
                        ==> pt1.l2s@[tt].entries@[ii] == pt0.l2s@[tt].entries@[ii]);
                assert(entry_child(pt1.l2s@[t2 as int].entries@[i2 as int]) is None);
            }
            assert forall|sz: PageSize, va2: u64|
                va2 < MAX_VADDR && !(sz == PageSize::Size2M && spec_same_page(
                    PageSize::Size2M,
                    va2,
                    va,
                )) implies pt1.spec_translate(sz, va2) == pt0.spec_translate(sz, va2) by {
                lemma_index_bound(4, va2);
                lemma_index_bound(3, va2);
                lemma_index_bound(2, va2);
                let j4 = spec_get_index(4, va2) as int;
                let j3 = spec_get_index(3, va2) as int;
                let j2 = spec_get_index(2, va2) as int;
                match pt0.root.entries@[j4] {
                    Entry::NextTable { idx: t3p } => {
                        assert(t3p < pt0.l3s@.len());
                        match pt0.l3s@[t3p as int].entries@[j3] {
                            Entry::NextTable { idx: t2p } => {
                                assert(t2p < pt0.l2s@.len());
                                if t2p == t2 && j2 == i2 {
                                    assert(entry_child(pt0.l3s@[t3p as int].entries@[j3])
                                        == Some(t2));
                                    assert(entry_child(
                                        pt0.l3s@[t3 as int].entries@[spec_get_index(3, va) as int],
                                    ) == Some(t2));
                                    assert(t3p == t3 && j3 == spec_get_index(3, va) as int);
                                    assert(entry_child(pt0.root.entries@[j4]) == Some(t3));
                                    assert(entry_child(
                                        pt0.root.entries@[spec_get_index(4, va) as int],
                                    ) == Some(t3));
                                    assert(j4 == spec_get_index(4, va) as int);
                                    lemma_same_path_2m(va2, va);
                                    assert(spec_same_page(PageSize::Size2M, va2, va)) by {
                                        assert(va2 >> 21 == va >> 21);
                                    }
                                    assert(sz != PageSize::Size2M);
                                    assert(pt0.spec_translate(sz, va2) is None);
                                    assert(pt1.spec_translate(sz, va2) is None);
                                } else {
                                    assert(pt1.l2s@[t2p as int].entries@[j2] == pt0
                                        .l2s@[t2p as int].entries@[j2]);
                                }
                            },
                            _ => {},
                        }
                    },
                    _ => {},
                }
            }
        }
    }

    /// Write the 4K leaf slot for `va`: the entry becomes `e`, and no
    /// translation outside this 4K page changes.
    #[verifier::rlimit(100)]
    fn set_leaf_4k(&mut self, va: u64, t3: usize, t2: usize, t1: usize, e: Entry)
        requires
            old(self).wf(),
            va < MAX_VADDR,
            entry_child(old(self).root.entries@[spec_get_index(4, va) as int]) == Some(t3),
            entry_child(old(self).l3s@[t3 as int].entries@[spec_get_index(3, va) as int]) == Some(
                t2,
            ),
            entry_child(old(self).l2s@[t2 as int].entries@[spec_get_index(2, va) as int]) == Some(
                t1,
            ),
            old(self).l1s@[t1 as int].entries@[spec_get_index(1, va) as int] is Empty || old(
                self,
            ).l1s@[t1 as int].entries@[spec_get_index(1, va) as int] is Block,
            e is Empty || (e matches Entry::Block { base, flags } && base as int % 0x1000 == 0),
        ensures
            final(self).wf(),
            final(self).root == old(self).root,
            final(self).l3s == old(self).l3s,
            final(self).l2s == old(self).l2s,
            final(self).l1s@.len() == old(self).l1s@.len(),
            final(self).l1s@[t1 as int].entries@[spec_get_index(1, va) as int] == e,
            forall|t: int, i: int|
                0 <= t < old(self).l1s@.len() && 0 <= i < 512 && (t != t1 || i != spec_get_index(
                    1,
                    va,
                ) as int) ==> final(self).l1s@[t].entries@[i] == old(self).l1s@[t].entries@[i],
            forall|t: int|
                0 <= t < old(self).l1s@.len() ==> final(self).l1s@[t].entries@.len() == 512,
            final(self).spec_translate(PageSize::Size4K, va) == (match e {
                Entry::Block { base, flags } => Some((base, flags)),
                _ => None,
            }),
            forall|sz: PageSize, va2: u64|
                va2 < MAX_VADDR && !(sz == PageSize::Size4K && spec_same_page(
                    PageSize::Size4K,
                    va2,
                    va,
                )) ==> final(self).spec_translate(sz, va2) == old(self).spec_translate(sz, va2),
    {
        let ghost pt0 = *self;
        let i4 = get_index(4, va);
        let i3 = get_index(3, va);
        let i2 = get_index(2, va);
        let i1 = get_index(1, va);
        proof {
            assert(t3 < pt0.l3s@.len());
            assert(t2 < pt0.l2s@.len());
            assert(t1 < pt0.l1s@.len());
        }
        set_entry(&mut self.l1s, t1, i1, e);
        proof {
            let pt1 = *self;
            assert(pt1.tables_wf()) by {
                assert(PageTable::table_wf(pt1.l1s@[t1 as int], 0, 0x1000)) by {
                    assert(forall|i: int|
                        0 <= i < 512 && i != i1 ==> pt1.l1s@[t1 as int].entries@[i] == pt0
                            .l1s@[t1 as int].entries@[i]);
                }
                assert(forall|tt: int|
                    0 <= tt < pt0.l1s@.len() && tt != t1 ==> pt1.l1s@[tt] == pt0.l1s@[tt]);
            }
            assert(pt1.inj());
            assert forall|sz: PageSize, va2: u64|
                va2 < MAX_VADDR && !(sz == PageSize::Size4K && spec_same_page(
                    PageSize::Size4K,
                    va2,
                    va,
                )) implies pt1.spec_translate(sz, va2) == pt0.spec_translate(sz, va2) by {
                lemma_index_bound(4, va2);
                lemma_index_bound(3, va2);
                lemma_index_bound(2, va2);
                lemma_index_bound(1, va2);
                let j4 = spec_get_index(4, va2) as int;
                let j3 = spec_get_index(3, va2) as int;
                let j2 = spec_get_index(2, va2) as int;
                let j1 = spec_get_index(1, va2) as int;
                match pt0.root.entries@[j4] {
                    Entry::NextTable { idx: t3p } => {
                        assert(t3p < pt0.l3s@.len());
                        match pt0.l3s@[t3p as int].entries@[j3] {
                            Entry::NextTable { idx: t2p } => {
                                assert(t2p < pt0.l2s@.len());
                                match pt0.l2s@[t2p as int].entries@[j2] {
                                    Entry::NextTable { idx: t1p } => {
                                        assert(t1p < pt0.l1s@.len());
                                        if t1p == t1 && j1 == i1 {
                                            assert(entry_child(pt0.l2s@[t2p as int].entries@[j2])
                                                == Some(t1));
                                            assert(entry_child(
                                                pt0.l2s@[t2 as int].entries@[spec_get_index(
                                                    2,
                                                    va,
                                                ) as int],
                                            ) == Some(t1));
                                            assert(t2p == t2 && j2 == spec_get_index(2, va) as int);
                                            assert(entry_child(pt0.l3s@[t3p as int].entries@[j3])
                                                == Some(t2));
                                            assert(entry_child(
                                                pt0.l3s@[t3 as int].entries@[spec_get_index(
                                                    3,
                                                    va,
                                                ) as int],
                                            ) == Some(t2));
                                            assert(t3p == t3 && j3 == spec_get_index(3, va) as int);
                                            assert(entry_child(pt0.root.entries@[j4]) == Some(t3));
                                            assert(j4 == spec_get_index(4, va) as int);
                                            lemma_same_path_4k(va2, va);
                                            assert(spec_same_page(PageSize::Size4K, va2, va)) by {
                                                assert(va2 >> 12 == va >> 12);
                                            }
                                            assert(sz != PageSize::Size4K);
                                            assert(pt1.spec_translate(sz, va2) == pt0
                                                .spec_translate(sz, va2));
                                        } else {
                                            assert(pt1.l1s@[t1p as int].entries@[j1] == pt0
                                                .l1s@[t1p as int].entries@[j1]);
                                        }
                                    },
                                    _ => {},
                                }
                            },
                            _ => {},
                        }
                    },
                    _ => {},
                }
            }
        }
    }

    /// Common contract of the per-size mapping helpers: the pool is known
    /// to hold enough frames, the walk is clear, and afterwards the page
    /// translates to the frame while every other translation is untouched.
    #[verifier::rlimit(100)]
    fn map_1g(&mut self, page: Page, frame: Frame, flags: u64, physical: &mut PhysicalMemory)
        requires
            old(self).wf(),
            old(physical).wf(),
            page.wf(),
            frame.wf(),
            page.size == frame.size,
            page.size == PageSize::Size1G,
            page.base < MAX_VADDR,
            old(self).spec_path_clear(page.size, page.base),
            spec_free_bytes(old(physical).ranges@) >= old(self).spec_missing_tables(
                page.size,
                page.base,
            ) * 0x1000,
        ensures
            final(self).wf(),
            final(physical).wf(),
            final(physical).initial_bytes == old(physical).initial_bytes,
            final(self).spec_translate(page.size, page.base) == Some(
                (frame.base, spec_leaf_flags(page.size, flags)),
            ),
            final(physical).outstanding == old(physical).outstanding + old(
                self,
            ).spec_missing_tables(page.size, page.base),
            spec_free_bytes(final(physical).ranges@) == spec_free_bytes(old(physical).ranges@)
                - old(self).spec_missing_tables(page.size, page.base) * 0x1000,
            forall|sz: PageSize, va: u64|
                va < MAX_VADDR && !(sz == page.size && spec_same_page(page.size, va, page.base))
                    ==> final(self).spec_translate(sz, va) == old(self).spec_translate(sz, va),
            forall|k: int|
                0 <= k < 512 ==> ((#[trigger] final(self).root.entries@[k]) is KernelWindow <==> old(
                    self,
                ).root.entries@[k] is KernelWindow),
    {
        let ghost pt0 = *self;
        proof {
            lemma_first_fit_4k(physical.ranges@);
        }
        let i4 = get_index(4, page.base);
        let t3 = self.ensure_l3(i4, physical);
        proof {
            assert forall|k: int|
                0 <= k < 512 implies ((#[trigger] self.root.entries@[k]) is KernelWindow <==> pt0
                .root.entries@[k] is KernelWindow) by {
                if k != i4 as int {
                    assert(self.root.entries@[k] == pt0.root.entries@[k]);
                } else {
                    assert(!(pt0.root.entries@[k] is KernelWindow));
                    assert(entry_child(self.root.entries@[k]) is Some);
                }
            }
            lemma_index_bound(3, page.base);
            let i3 = spec_get_index(3, page.base) as int;
            if pt0.root.entries@[i4 as int] is Empty {
                assert(self.l3s@[t3 as int].entries@[i3] is Empty);
            } else {
                assert(self.l3s@[t3 as int].entries@[i3] == pt0.l3s@[t3 as int].entries@[i3]);
                assert(pt0.l3s@[t3 as int].entries@[i3] is Empty);
            }
        }
        self.set_leaf_1g(page.base, t3, Entry::Block { base: frame.base, flags });
    }

    /// See `map_1g`; the 2M case walks one level further.
    #[verifier::rlimit(100)]
    fn map_2m(&mut self, page: Page, frame: Frame, flags: u64, physical: &mut PhysicalMemory)
        requires
            old(self).wf(),
            old(physical).wf(),
            page.wf(),
            frame.wf(),
            page.size == frame.size,
            page.size == PageSize::Size2M,
            page.base < MAX_VADDR,
            old(self).spec_path_clear(page.size, page.base),
            spec_free_bytes(old(physical).ranges@) >= old(self).spec_missing_tables(
                page.size,
                page.base,
            ) * 0x1000,
        ensures
            final(self).wf(),
            final(physical).wf(),
            final(physical).initial_bytes == old(physical).initial_bytes,
            final(self).spec_translate(page.size, page.base) == Some(
                (frame.base, spec_leaf_flags(page.size, flags)),
            ),
            final(physical).outstanding == old(physical).outstanding + old(
                self,
            ).spec_missing_tables(page.size, page.base),
            spec_free_bytes(final(physical).ranges@) == spec_free_bytes(old(physical).ranges@)
                - old(self).spec_missing_tables(page.size, page.base) * 0x1000,
            forall|sz: PageSize, va: u64|
                va < MAX_VADDR && !(sz == page.size && spec_same_page(page.size, va, page.base))
                    ==> final(self).spec_translate(sz, va) == old(self).spec_translate(sz, va),
            forall|k: int|
                0 <= k < 512 ==> ((#[trigger] final(self).root.entries@[k]) is KernelWindow <==> old(
                    self,
                ).root.entries@[k] is KernelWindow),
    {
        let ghost pt0 = *self;
        proof {
            lemma_first_fit_4k(physical.ranges@);
        }
        let i4 = get_index(4, page.base);
        let t3 = self.ensure_l3(i4, physical);
        proof {
            assert forall|k: int|
                0 <= k < 512 implies ((#[trigger] self.root.entries@[k]) is KernelWindow <==> pt0
                .root.entries@[k] is KernelWindow) by {
                if k != i4 as int {
                    assert(self.root.entries@[k] == pt0.root.entries@[k]);
                } else {
                    assert(!(pt0.root.entries@[k] is KernelWindow));
                    assert(entry_child(self.root.entries@[k]) is Some);
                }
            }
        }
        let i3 = get_index(3, page.base);
        proof {
            lemma_first_fit_4k(physical.ranges@);
            if pt0.root.entries@[i4 as int] is Empty {
                assert(pt0.spec_missing_tables(page.size, page.base) == 2);
                assert(spec_free_bytes(physical.ranges@) >= 0x1000);
                assert(self.l3s@[t3 as int].entries@[i3 as int] is Empty);
            } else {
                assert(self.l3s@[t3 as int].entries@[i3 as int] == pt0
                    .l3s@[t3 as int].entries@[i3 as int]);
                if pt0.l3s@[t3 as int].entries@[i3 as int] is Empty {
                    assert(pt0.spec_missing_tables(page.size, page.base) == 1);
                    assert(spec_free_bytes(physical.ranges@) >= 0x1000);
                }
            }
        }
        let ghost mid1 = *self;
        let t2 = self.ensure_l2(t3, i3, physical);
        proof {
            lemma_index_bound(2, page.base);
            let i2 = spec_get_index(2, page.base) as int;
            if mid1.l3s@[t3 as int].entries@[i3 as int] is Empty {
                assert(self.l2s@[t2 as int].entries@[i2] is Empty);
            } else {
                assert(mid1.l3s@[t3 as int].entries@[i3 as int] == pt0
                    .l3s@[t3 as int].entries@[i3 as int]);
                assert(mid1.l2s@[t2 as int].entries@[i2] == pt0.l2s@[t2 as int].entries@[i2]);
                assert(self.l2s@[t2 as int].entries@[i2] == mid1.l2s@[t2 as int].entries@[i2]);
                assert(pt0.l2s@[t2 as int].entries@[i2] is Empty);
            }
        }
        self.set_leaf_2m(page.base, t3, t2, Entry::Block { base: frame.base, flags });
    }

    /// See `map_1g`; the 4K case walks to the lowest level and adds the
    /// small-page bit to the leaf flags.
    #[verifier::rlimit(100)]
    fn map_4k(&mut self, page: Page, frame: Frame, flags: u64, physical: &mut PhysicalMemory)
        requires
            old(self).wf(),
            old(physical).wf(),
            page.wf(),
            frame.wf(),
            page.size == frame.size,
            page.size == PageSize::Size4K,
            page.base < MAX_VADDR,
            old(self).spec_path_clear(page.size, page.base),
            spec_free_bytes(old(physical).ranges@) >= old(self).spec_missing_tables(
                page.size,
                page.base,
            ) * 0x1000,
        ensures
            final(self).wf(),
            final(physical).wf(),
            final(physical).initial_bytes == old(physical).initial_bytes,
            final(self).spec_translate(page.size, page.base) == Some(
                (frame.base, spec_leaf_flags(page.size, flags)),
            ),
            final(physical).outstanding == old(physical).outstanding + old(
                self,
            ).spec_missing_tables(page.size, page.base),
            spec_free_bytes(final(physical).ranges@) == spec_free_bytes(old(physical).ranges@)
                - old(self).spec_missing_tables(page.size, page.base) * 0x1000,
            forall|sz: PageSize, va: u64|
                va < MAX_VADDR && !(sz == page.size && spec_same_page(page.size, va, page.base))
                    ==> final(self).spec_translate(sz, va) == old(self).spec_translate(sz, va),
            spec_no_user_blocks(*old(self)) ==> spec_no_user_blocks(*final(self)),
            forall|k: int|
                0 <= k < 512 ==> ((#[trigger] final(self).root.entries@[k]) is KernelWindow <==> old(
                    self,
                ).root.entries@[k] is KernelWindow),
    {
        let ghost pt0 = *self;
        proof {
            lemma_first_fit_4k(physical.ranges@);
        }
        let i4 = get_index(4, page.base);
        let t3 = self.ensure_l3(i4, physical);
        let i3 = get_index(3, page.base);
        proof {
            lemma_first_fit_4k(physical.ranges@);
            if pt0.root.entries@[i4 as int] is Empty {
                assert(pt0.spec_missing_tables(page.size, page.base) == 3);
                assert(spec_free_bytes(physical.ranges@) >= 0x2000);
                assert(self.l3s@[t3 as int].entries@[i3 as int] is Empty);
            } else {
                assert(self.l3s@[t3 as int].entries@[i3 as int] == pt0
                    .l3s@[t3 as int].entries@[i3 as int]);
                if pt0.l3s@[t3 as int].entries@[i3 as int] is Empty {
                    assert(pt0.spec_missing_tables(page.size, page.base) == 2);
                    assert(spec_free_bytes(physical.ranges@) >= 0x2000);
                }
            }
        }
        let ghost mid1 = *self;
        let t2 = self.ensure_l2(t3, i3, physical);
        let i2 = get_index(2, page.base);
        proof {
            lemma_first_fit_4k(physical.ranges@);
            if mid1.l3s@[t3 as int].entries@[i3 as int] is Empty {
                assert(self.l2s@[t2 as int].entries@[i2 as int] is Empty);
                assert(spec_free_bytes(physical.ranges@) >= 0x1000);
            } else {
                assert(self.l2s@[t2 as int].entries@[i2 as int] == mid1
                    .l2s@[t2 as int].entries@[i2 as int]);
                if mid1.l2s@[t2 as int].entries@[i2 as int] is Empty {
                    assert(spec_free_bytes(physical.ranges@) >= 0x1000);
                }
            }
        }
        let ghost mid2 = *self;
        let ghost mid2b = *self;
        let t1 = self.ensure_l1(t2, i2, physical);
        proof {
            lemma_index_bound(1, page.base);
            let i1 = spec_get_index(1, page.base) as int;
            if mid2.l2s@[t2 as int].entries@[i2 as int] is Empty {
                assert(self.l1s@[t1 as int].entries@[i1] is Empty);
            } else {
                // the level-2 slot already pointed at a table, so the
                // whole path predates this call and its leaf was empty
                assert(mid2.l2s@[t2 as int].entries@[i2 as int] == mid1
                    .l2s@[t2 as int].entries@[i2 as int]);
                assert(mid1.l2s@[t2 as int].entries@[i2 as int] == pt0
                    .l2s@[t2 as int].entries@[i2 as int]);
                assert(mid1.l3s@[t3 as int].entries@[i3 as int] is NextTable);
                assert(pt0.l3s@[t3 as int].entries@[i3 as int] is NextTable);
                assert(pt0.root.entries@[i4 as int] is NextTable);
                assert(mid2.l1s@[t1 as int].entries@[i1] == pt0.l1s@[t1 as int].entries@[i1]);
                assert(self.l1s@[t1 as int].entries@[i1] == mid2.l1s@[t1 as int].entries@[i1]);
                assert(pt0.l1s@[t1 as int].entries@[i1] is Empty);
            }
        }
        let ghost mid3 = *self;
        self.set_leaf_4k(page.base, t3, t2, t1, Entry::Block {
            base: frame.base,
            flags: flags | FLAG_SMALL_PAGE,
        });
        proof {
            let ii4 = i4 as int;
            assert forall|k: int|
                0 <= k < 512 implies ((#[trigger] self.root.entries@[k]) is KernelWindow <==> pt0
                .root.entries@[k] is KernelWindow) by {
                assert(self.root == mid3.root && mid3.root == mid2b.root && mid2b.root == mid1
                    .root);
                if k != ii4 {
                    assert(mid1.root.entries@[k] == pt0.root.entries@[k]);
                } else {
                    assert(!(pt0.root.entries@[ii4] is KernelWindow));
                    assert(entry_child(mid1.root.entries@[ii4]) is Some);
                }
            }
            if spec_no_user_blocks(pt0) {
                assert(spec_no_user_blocks(mid1)) by {
                    if pt0.root.entries@[ii4] is Empty {
                        assert forall|t: int, i: int|
                            0 <= t < mid1.l3s@.len() && 0 <= i < 512 implies !((
                        #[trigger] mid1.l3s@[t].entries@[i]) is Block) && !(mid1.l3s@[t].entries@[i]
                            is KernelWindow) by {
                            if t < pt0.l3s@.len() {
                                assert(mid1.l3s@[t] == pt0.l3s@[t]);
                            } else {
                                assert(mid1.l3s@[t].entries@[i] == Entry::Empty);
                            }
                        }
                    }
                }
                assert(spec_no_user_blocks(mid2b)) by {
                    assert forall|t: int, i: int|
                        0 <= t < mid2b.l3s@.len() && 0 <= i < 512 implies !((
                    #[trigger] mid2b.l3s@[t].entries@[i]) is Block) && !(mid2b.l3s@[t].entries@[i]
                        is KernelWindow) by {
                        if t == t3 as int && i == i3 as int {
                            assert(entry_child(mid2b.l3s@[t].entries@[i]) is Some || mid2b
                                .l3s@[t].entries@[i] == mid1.l3s@[t].entries@[i]);
                        } else {
                            assert(mid2b.l3s@[t].entries@[i] == mid1.l3s@[t].entries@[i]);
                        }
                    }
                    assert forall|t: int, i: int|
                        0 <= t < mid2b.l2s@.len() && 0 <= i < 512 implies !((
                    #[trigger] mid2b.l2s@[t].entries@[i]) is Block) && !(mid2b.l2s@[t].entries@[i]
                        is KernelWindow) by {
                        if t < mid1.l2s@.len() {
                            assert(mid2b.l2s@[t].entries@[i] == mid1.l2s@[t].entries@[i]);
                        } else {
                            assert(mid2b.l2s@[t].entries@[i] == Entry::Empty);
                        }
                    }
                }
                assert(spec_no_user_blocks(mid3)) by {
                    assert(mid3.l3s == mid2b.l3s);
                    assert forall|t: int, i: int|
                        0 <= t < mid3.l2s@.len() && 0 <= i < 512 implies !((
                    #[trigger] mid3.l2s@[t].entries@[i]) is Block) && !(mid3.l2s@[t].entries@[i]
                        is KernelWindow) by {
                        if t == t2 as int && i == i2 as int {
                            assert(entry_child(mid3.l2s@[t].entries@[i]) is Some || mid3
                                .l2s@[t].entries@[i] == mid2b.l2s@[t].entries@[i]);
                        } else {
                            assert(mid3.l2s@[t].entries@[i] == mid2b.l2s@[t].entries@[i]);
                        }
                    }
                    assert forall|t: int, i: int|
                        0 <= t < mid3.l1s@.len() && 0 <= i < 512 implies !((
                    #[trigger] mid3.l1s@[t].entries@[i]) is KernelWindow) by {
                        if t < mid2b.l1s@.len() {
                            assert(mid3.l1s@[t].entries@[i] == mid2b.l1s@[t].entries@[i]);
                        } else {
                            assert(mid3.l1s@[t].entries@[i] == Entry::Empty);
                        }
                    }
                }
                assert(spec_no_user_blocks(*self)) by {
                    assert(self.l3s == mid3.l3s && self.l2s == mid3.l2s);
                    assert forall|t: int, i: int|
                        0 <= t < self.l1s@.len() && 0 <= i < 512 implies !((
                    #[trigger] self.l1s@[t].entries@[i]) is KernelWindow) by {
                        if t == t1 as int && i == spec_get_index(1, page.base) as int {
                            assert(self.l1s@[t].entries@[i] is Block || self.l1s@[t].entries@[i]
                                == mid3.l1s@[t].entries@[i]);
                        } else {
                            assert(self.l1s@[t].entries@[i] == mid3.l1s@[t].entries@[i]);
                        }
                    }
                }
            }
        }
    }

    /// Map `page` to `frame` with the given flags, allocating intermediate
    /// tables from the physical allocator as needed. Succeeds exactly when
    /// the pool still holds the frames the missing intermediate tables
    /// need; no other translation changes, and mapping over an existing
    /// entry or through a block is a kernel bug ruled out up front.
    pub fn map(
        &mut self,
        page: Page,
        frame: Frame,
        flags: u64,
        physical: &mut PhysicalMemory,
    ) -> (r: Result<Page, KernelError>)
        requires
            old(self).wf(),
            old(physical).wf(),
            page.wf(),
            frame.wf(),
            page.size == frame.size,
            page.base < MAX_VADDR,
            old(self).spec_path_clear(page.size, page.base),
        ensures
            final(self).wf(),
            final(physical).wf(),
            final(physical).initial_bytes == old(physical).initial_bytes,
            r is Ok <==> spec_free_bytes(old(physical).ranges@) >= old(self).spec_missing_tables(
                page.size,
                page.base,
            ) * 0x1000,
            r matches Ok(p) ==> p == page,
            r is Ok ==> {
                &&& final(self).spec_translate(page.size, page.base) == Some(
                    (frame.base, spec_leaf_flags(page.size, flags)),
                )
                &&& final(physical).outstanding == old(physical).outstanding + old(
                    self,
                ).spec_missing_tables(page.size, page.base)
                &&& spec_free_bytes(final(physical).ranges@) == spec_free_bytes(
                    old(physical).ranges@,
                ) - old(self).spec_missing_tables(page.size, page.base) * 0x1000
            },
            r is Err ==> {
                &&& r == Err::<Page, KernelError>(KernelError::OutOfMemory)
                &&& *final(self) == *old(self)
                &&& final(physical).ranges@ == old(physical).ranges@
                &&& final(physical).outstanding == old(physical).outstanding
            },
            forall|sz: PageSize, va: u64|
                va < MAX_VADDR && !(sz == page.size && spec_same_page(page.size, va, page.base))
                    ==> final(self).spec_translate(sz, va) == old(self).spec_translate(sz, va),
            page.size == PageSize::Size4K && spec_no_user_blocks(*old(self)) ==> spec_no_user_blocks(
                *final(self),
            ),
            r is Ok ==> forall|k: int|
                0 <= k < 512 ==> ((#[trigger] final(self).root.entries@[k]) is KernelWindow
                    <==> old(self).root.entries@[k] is KernelWindow),
    {
        let m = self.missing_tables(page.size, page.base);
        let free = physical.free_bytes();
        if free < m * 0x1000 {
            return Err(KernelError::OutOfMemory);
        }
        match page.size {
            PageSize::Size1G => {
                self.map_1g(page, frame, flags, physical);
                Ok(page)
            },
            PageSize::Size2M => {
                self.map_2m(page, frame, flags, physical);
                Ok(page)
            },
            PageSize::Size4K => {
                self.map_4k(page, frame, flags, physical);
                Ok(page)
            },
        }
    }

    /// Map the frame at the virtual address equal to its physical address.
    pub fn identity_map(
        &mut self,
        frame: Frame,
        flags: u64,
        physical: &mut PhysicalMemory,
    ) -> (r: Result<Page, KernelError>)
        requires
            old(self).wf(),
            old(physical).wf(),
            frame.wf(),
            frame.base < MAX_VADDR,
            old(self).spec_path_clear(frame.size, frame.base),
        ensures
            final(self).wf(),
            final(physical).wf(),
            final(physical).initial_bytes == old(physical).initial_bytes,
            r is Ok <==> spec_free_bytes(old(physical).ranges@) >= old(self).spec_missing_tables(
                frame.size,
                frame.base,
            ) * 0x1000,
            r matches Ok(p) ==> p == (Page { size: frame.size, base: frame.base }),
            r is Ok ==> final(self).spec_translate(frame.size, frame.base) == Some(
                (frame.base, spec_leaf_flags(frame.size, flags)),
            ),
            forall|sz: PageSize, va: u64|
                va < MAX_VADDR && !(sz == frame.size && spec_same_page(frame.size, va, frame.base))
                    ==> final(self).spec_translate(sz, va) == old(self).spec_translate(sz, va),
    {
        let page = Page::new(frame.size, frame.base);
        self.map(page, frame, flags, physical)
    }

    /// Clear the leaf that maps `page`. Emptied intermediate tables are not
    /// reclaimed. No other translation changes.
    pub fn unmap(&mut self, page: Page)
        requires
            old(self).wf(),
            page.wf(),
            page.base < MAX_VADDR,
            old(self).spec_translate(page.size, page.base) is Some,
        ensures
            final(self).wf(),
            final(self).spec_translate(page.size, page.base) is None,
            forall|sz: PageSize, va: u64|
                va < MAX_VADDR && !(sz == page.size && spec_same_page(page.size, va, page.base))
                    ==> final(self).spec_translate(sz, va) == old(self).spec_translate(sz, va),
    {
        let i4 = get_index(4, page.base);
        let t3 = match self.root.entries[i4] {
            Entry::NextTable { idx } => idx,
            _ => unreached(),
        };
        match page.size {
            PageSize::Size1G => {
                self.set_leaf_1g(page.base, t3, Entry::Empty);
            },
            PageSize::Size2M => {
                let i3 = get_index(3, page.base);
                let t2 = match self.l3s[t3].entries[i3] {
                    Entry::NextTable { idx } => idx,
                    _ => unreached(),
                };
                self.set_leaf_2m(page.base, t3, t2, Entry::Empty);
            },
            PageSize::Size4K => {
                let i3 = get_index(3, page.base);
                let t2 = match self.l3s[t3].entries[i3] {
                    Entry::NextTable { idx } => idx,
                    _ => unreached(),
                };
                let i2 = get_index(2, page.base);
                let t1 = match self.l2s[t2].entries[i2] {
                    Entry::NextTable { idx } => idx,
                    _ => unreached(),
                };
                self.set_leaf_4k(page.base, t3, t2, t1, Entry::Empty);
            },
        }
    }

    /// Mark the root slot that covers the kernel's own memory range as the
    /// shared kernel window. The slot must be empty; no translation through
    /// this table changes.
    #[verifier::rlimit(100)]
    pub fn set_kernel_window(&mut self, i4: usize)
        requires
            old(self).wf(),
            i4 < 512,
            old(self).root.entries@[i4 as int] is Empty,
        ensures
            final(self).wf(),
            final(self).root.entries@[i4 as int] is KernelWindow,
            forall|k: int|
                0 <= k < 512 && k != i4 ==> final(self).root.entries@[k] == old(
                    self,
                ).root.entries@[k],
            final(self).l3s == old(self).l3s,
            final(self).l2s == old(self).l2s,
            final(self).l1s == old(self).l1s,
            forall|sz: PageSize, va: u64|
                final(self).spec_translate(sz, va) == old(self).spec_translate(sz, va),
    {
        let ghost pt0 = *self;
        self.root.entries.set(i4, Entry::KernelWindow);
        proof {
            let pt1 = *self;
            assert(pt1.tables_wf()) by {
                assert(forall|i: int|
                    0 <= i < 512 && i != i4 ==> pt1.root.entries@[i] == pt0.root.entries@[i]);
            }
            assert(pt1.inj()) by {
                assert(forall|a: int|
                    0 <= a < 512 && a != i4 ==> pt1.root.entries@[a] == pt0.root.entries@[a]);
                assert(entry_child(pt1.root.entries@[i4 as int]) is None);
            }
            assert forall|sz: PageSize, va: u64|
                pt1.spec_translate(sz, va) == pt0.spec_translate(sz, va) by {
                lemma_index_bound(4, va);
                let j4 = spec_get_index(4, va) as int;
                if j4 == i4 {
                    assert(pt0.spec_translate(sz, va) is None);
                    assert(pt1.spec_translate(sz, va) is None);
                } else {
                    assert(pt1.root.entries@[j4] == pt0.root.entries@[j4]);
                    match pt0.root.entries@[j4] {
                        Entry::NextTable { idx: t3p } => {
                            assert(t3p < pt0.l3s@.len());
                        },
                        _ => {},
                    }
                }
            }
        }
    }

    /// Runtime check of `spec_path_clear`: whether mapping this page would
    /// neither overwrite an existing mapping nor run through a block.
    pub fn path_clear(&self, size: PageSize, va: u64) -> (r: bool)
        requires
            self.wf(),
        ensures
            r == self.spec_path_clear(size, va),
    {
        let i4 = get_index(4, va);
        match self.root.entries[i4] {
            Entry::Empty => true,
            Entry::NextTable { idx: t3 } => {
                let i3 = get_index(3, va);
                match self.l3s[t3].entries[i3] {
                    Entry::Empty => true,
                    Entry::NextTable { idx: t2 } => {
                        if matches!(size, PageSize::Size1G) {
                            false
                        } else {
                            let i2 = get_index(2, va);
                            match self.l2s[t2].entries[i2] {
                                Entry::Empty => true,
                                Entry::NextTable { idx: t1 } => {
                                    if matches!(size, PageSize::Size2M) {
                                        false
                                    } else {
                                        let i1 = get_index(1, va);
                                        matches!(
                                            self.l1s[t1].entries[i1],
                                            Entry::Empty
                                        )
                                    }
                                },
                                _ => false,
                            }
                        }
                    },
                    _ => false,
                }
            },
            _ => false,
        }
    }

    /// The walk as a runtime query: the mapped frame for this page, or
    /// nothing where the hardware would fault.
    pub fn try_translate(&self, size: PageSize, va: u64) -> (r: Option<(u64, u64)>)
        requires
            self.wf(),
        ensures
            r == self.spec_translate(size, va),
    {
        let i4 = get_index(4, va);
        match self.root.entries[i4] {
            Entry::NextTable { idx: t3 } => {
                let i3 = get_index(3, va);
                match self.l3s[t3].entries[i3] {
                    Entry::Block { base, flags } => {
                        if matches!(size, PageSize::Size1G) {
                            Some((base, flags))
                        } else {
                            None
                        }
                    },
                    Entry::NextTable { idx: t2 } => {
                        if matches!(size, PageSize::Size1G) {
                            None
                        } else {
                            let i2 = get_index(2, va);
                            match self.l2s[t2].entries[i2] {
                                Entry::Block { base, flags } => {
                                    if matches!(size, PageSize::Size2M) {
                                        Some((base, flags))
                                    } else {
                                        None
                                    }
                                },
                                Entry::NextTable { idx: t1 } => {
                                    if matches!(size, PageSize::Size2M) {
                                        None
                                    } else {
                                        let i1 = get_index(1, va);
                                        match self.l1s[t1].entries[i1] {
                                            Entry::Block { base, flags } => Some((base, flags)),
                                            _ => None,
                                        }
                                    }
                                },
                                _ => None,
                            }
                        }
                    },
                    _ => None,
                }
            },
            _ => None,
        }
    }

    /// Walk to the leaf of the page's size and return the mapped frame.
    /// Walking through a missing table or a block of the wrong size is a
    /// kernel bug, ruled out by the precondition.
    pub fn translate(&self, page: Page) -> (r: Frame)
        requires
            self.wf(),
            self.spec_translate(page.size, page.base) is Some,
        ensures
            r.size == page.size,
            Some((r.base, self.spec_translate(page.size, page.base)->Some_0.1))
                == self.spec_translate(page.size, page.base),
            r.wf(),
    {
        let i4 = get_index(4, page.base);
        match self.root.entries[i4] {
            Entry::NextTable { idx: t3 } => {
                let i3 = get_index(3, page.base);
                match self.l3s[t3].entries[i3] {
                    Entry::Block { base, flags } => Frame { size: page.size, base },
                    Entry::NextTable { idx: t2 } => {
                        let i2 = get_index(2, page.base);
                        match self.l2s[t2].entries[i2] {
                            Entry::Block { base, flags } => Frame { size: page.size, base },
                            Entry::NextTable { idx: t1 } => {
                                let i1 = get_index(1, page.base);
                                match self.l1s[t1].entries[i1] {
                                    Entry::Block { base, flags } => Frame {
                                        size: page.size,
                                        base,
                                    },
                                    _ => unreached(),
                                }
                            },
                            _ => unreached(),
                        }
                    },
                    _ => unreached(),
                }
            },
            _ => unreached(),
        }
    }
}

/// Every level index is below 512.
proof fn lemma_index_bound(level: nat, va: u64)
    ensures
        spec_get_index(level, va) < 512,
{
    let sh = (((level - 1) * 9 + 12) as u64);
    assert((va >> sh) & 0x1ff < 512) by (bit_vector);
}

/// The shape of an address space that takes only 4K user mappings: no
/// block leaf sits at an intermediate level, and the kernel-window marker
/// never appears below the root.
pub open spec fn spec_no_user_blocks(pt: PageTable) -> bool {
    &&& forall|t: int, i: int|
        0 <= t < pt.l3s@.len() && 0 <= i < 512 ==> !((#[trigger] pt.l3s@[t].entries@[i]) is Block)
            && !(pt.l3s@[t].entries@[i] is KernelWindow)
    &&& forall|t: int, i: int|
        0 <= t < pt.l2s@.len() && 0 <= i < 512 ==> !((#[trigger] pt.l2s@[t].entries@[i]) is Block)
            && !(pt.l2s@[t].entries@[i] is KernelWindow)
    &&& forall|t: int, i: int|
        0 <= t < pt.l1s@.len() && 0 <= i < 512 ==> !((#[trigger] pt.l1s@[t].entries@[i])
            is KernelWindow)
}

/// In such an address space, an address that translates to nothing has a
/// clear walk: mapping it will overwrite nothing and cross no block.
pub proof fn lemma_unmapped_is_clear(pt: PageTable, va: u64)
    requires
        pt.wf(),
        spec_no_user_blocks(pt),
        !(pt.root.entries@[spec_get_index(4, va) as int] is KernelWindow),
        pt.spec_translate(PageSize::Size4K, va) is None,
    ensures
        pt.spec_path_clear(PageSize::Size4K, va),
{
    lemma_index_bound(4, va);
    lemma_index_bound(3, va);
    lemma_index_bound(2, va);
    lemma_index_bound(1, va);
}

/// Two addresses with identical indices at every level of the 4K walk lie
/// in the same 4K page.
proof fn lemma_same_path_4k(a: u64, b: u64)
    requires
        a < MAX_VADDR,
        b < MAX_VADDR,
        spec_get_index(4, a) == spec_get_index(4, b),
        spec_get_index(3, a) == spec_get_index(3, b),
        spec_get_index(2, a) == spec_get_index(2, b),
        spec_get_index(1, a) == spec_get_index(1, b),
    ensures
        a >> 12 == b >> 12,
{
    assert((a >> 39) & 0x1ff == (b >> 39) & 0x1ff && (a >> 30) & 0x1ff == (b >> 30) & 0x1ff && (a
        >> 21) & 0x1ff == (b >> 21) & 0x1ff && (a >> 12) & 0x1ff == (b >> 12) & 0x1ff && a
        < 0x1_0000_0000_0000 && b < 0x1_0000_0000_0000 ==> a >> 12 == b >> 12) by (bit_vector);
}

/// Two addresses with identical indices down to the 2M level lie in the
/// same 2M page.
proof fn lemma_same_path_2m(a: u64, b: u64)
    requires
        a < MAX_VADDR,
        b < MAX_VADDR,
        spec_get_index(4, a) == spec_get_index(4, b),
        spec_get_index(3, a) == spec_get_index(3, b),
        spec_get_index(2, a) == spec_get_index(2, b),
    ensures
        a >> 21 == b >> 21,
{
    assert((a >> 39) & 0x1ff == (b >> 39) & 0x1ff && (a >> 30) & 0x1ff == (b >> 30) & 0x1ff && (a
        >> 21) & 0x1ff == (b >> 21) & 0x1ff && a < 0x1_0000_0000_0000 && b < 0x1_0000_0000_0000
        ==> a >> 21 == b >> 21) by (bit_vector);
}

/// Two addresses with identical indices down to the 1G level lie in the
/// same 1G page.
proof fn lemma_same_path_1g(a: u64, b: u64)
    requires
        a < MAX_VADDR,
        b < MAX_VADDR,
        spec_get_index(4, a) == spec_get_index(4, b),
        spec_get_index(3, a) == spec_get_index(3, b),
    ensures
        a >> 30 == b >> 30,
{
    assert((a >> 39) & 0x1ff == (b >> 39) & 0x1ff && (a >> 30) & 0x1ff == (b >> 30) & 0x1ff && a
        < 0x1_0000_0000_0000 && b < 0x1_0000_0000_0000 ==> a >> 30 == b >> 30) by (bit_vector);
}

/// Release every frame a table run maps as block leaves (of the given
/// size) and the 4K frames backing the tables themselves. Claims the
/// checked release verifies at run time; a record the pool does not
/// recognise is skipped rather than corrupting the free list.
fn release_tables(ts: Vec<Table>, block_size: PageSize, physical: &mut PhysicalMemory) -> (released:
    u64)
    requires
        old(physical).wf(),
    ensures
        final(physical).wf(),
        final(physical).initial_bytes == old(physical).initial_bytes,
        spec_free_bytes(final(physical).ranges@) == spec_free_bytes(old(physical).ranges@)
            + released,
{
    proof {
        lemma_free_nonneg(*physical);
    }
    let mut released: u64 = 0;
    let n = ts.len();
    let mut t: usize = 0;
    while t < n
        invariant
            0 <= t <= n,
            n == ts@.len(),
            physical.wf(),
            physical.initial_bytes == old(physical).initial_bytes,
            spec_free_bytes(old(physical).ranges@) >= 0,
            spec_free_bytes(physical.ranges@) == spec_free_bytes(old(physical).ranges@)
                + released,
        decreases n - t,
    {
        let tbl = &ts[t];
        let bytes = block_size.bytes();
        let m = tbl.entries.len();
        let mut i: usize = 0;
        while i < m
            invariant
                0 <= i <= m,
                m == tbl.entries@.len(),
                physical.wf(),
                physical.initial_bytes == old(physical).initial_bytes,
                spec_free_bytes(old(physical).ranges@) >= 0,
                spec_free_bytes(physical.ranges@) == spec_free_bytes(old(physical).ranges@)
                    + released,
                bytes == block_size.spec_bytes(),
                bytes >= 1,
            decreases m - i,
        {
            match tbl.entries[i] {
                Entry::Block { base, flags } => {
                    let _ = flags;
                    if base % bytes == 0 {
                        let ghost f0 = spec_free_bytes(physical.ranges@);
                        if physical.release_checked(Frame { size: block_size, base }).is_ok() {
                            proof {
                                assert(spec_free_bytes(physical.ranges@)
                                    <= physical.initial_bytes);
                            }
                            released = released + bytes;
                        }
                    }
                },
                _ => {},
            }
            i = i + 1;
        }
        if tbl.frame % 0x1000 == 0 {
            if physical.release_checked(Frame { size: PageSize::Size4K, base: tbl.frame }).is_ok()
                {
                proof {
                    assert(spec_free_bytes(physical.ranges@) <= physical.initial_bytes);
                }
                released = released + 0x1000;
            }
        }
        t = t + 1;
    }
    released
}

/// Tear a user address space down: release every block frame it maps,
/// then the frames behind its tables, the root's last. The shared kernel
/// window is only a marker in the root, so dropping the root clears it
/// without freeing anything of the kernel's.
pub fn release_user_page_table(pt: PageTable, physical: &mut PhysicalMemory) -> (released: u64)
    requires
        old(physical).wf(),
    ensures
        final(physical).wf(),
        final(physical).initial_bytes == old(physical).initial_bytes,
        spec_free_bytes(final(physical).ranges@) == spec_free_bytes(old(physical).ranges@)
            + released,
{
    proof {
        lemma_free_nonneg(*physical);
    }
    let PageTable { root, l3s, l2s, l1s } = pt;
    let mut released = release_tables(l1s, PageSize::Size4K, physical);
    let r2 = release_tables(l2s, PageSize::Size2M, physical);
    proof {
        assert(spec_free_bytes(physical.ranges@) <= physical.initial_bytes);
    }
    released = released + r2;
    let r3 = release_tables(l3s, PageSize::Size1G, physical);
    proof {
        assert(spec_free_bytes(physical.ranges@) <= physical.initial_bytes);
    }
    released = released + r3;
    if root.frame % 0x1000 == 0 {
        if physical.release_checked(Frame { size: PageSize::Size4K, base: root.frame }).is_ok() {
            proof {
                assert(spec_free_bytes(physical.ranges@) <= physical.initial_bytes);
            }
            released = released + 0x1000;
        }
    }
    released
}

} // verus!
