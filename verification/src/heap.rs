//! The kernel heap.
//!
//! Two tiers. The lower tier reserves a fixed virtual window and backs 2M
//! pages of it with physical frames on demand, bumping a cursor through the
//! window. The upper tier is a buddy-style free list: one stack of free
//! cells per power-of-two size class, where popping serves an allocation,
//! a missing cell is made by splitting the next class up, and growth carves
//! freshly backed pages into the largest aligned pieces that fit. In the
//! machine the per-class list threads through the first word of each free
//! cell; here each class is an explicit stack, most recently freed on top.

use vstd::prelude::*;

verus! {

use crate::addr::{spec_aligned, Frame, PageSize};
use crate::error::KernelError;
use crate::physical::PhysicalMemory;

/// Base of the virtual window reserved for the kernel heap.
pub const KERNEL_HEAP_BASE: u64 = 0x8000_0000_0000;

/// Bytes of virtual space the heap window reserves.
pub const KERNEL_HEAP_SIZE: u64 = 0x1_0000_0000;

/// Smallest cell is `2^MIN_CLASS` = 16 bytes.
pub const MIN_CLASS: u64 = 4;

/// Largest cell is `2^MAX_CLASS` = 4 GiB, the whole window.
pub const MAX_CLASS: u64 = 32;

/// The number of 4K pages in the window the heap may hand to the kernel.
pub fn kernel_heap_memory() -> (r: (u64, u64))
    ensures
        r.0 == KERNEL_HEAP_BASE,
        r.1 == KERNEL_HEAP_BASE + KERNEL_HEAP_SIZE,
{
    (KERNEL_HEAP_BASE, KERNEL_HEAP_BASE + KERNEL_HEAP_SIZE)
}

/// Some class at or above `k` still holds a free cell.
pub open spec fn spec_has_cell(cells: Seq<Vec<u64>>, k: int) -> bool {
    exists|j: int| k <= j < cells.len() && cells[j]@.len() > 0
}

/// The 2M pages one growth step takes for class `k`: enough for the cell,
/// rounded up, then doubled.
pub open spec fn spec_grow_pages(k: nat) -> nat {
    (((1u64 << k as u64) as nat + 0x1f_ffff) / 0x20_0000) * 2
}

/// `k` is the size class that serves a request of `size` bytes: the
/// request padded to the minimum cell, then rounded up to a power of two.
pub open spec fn spec_is_class_of(k: u64, size: u64) -> bool {
    let padded: u64 = if size < 16 {
        16u64
    } else {
        size
    };
    &&& MIN_CLASS <= k <= MAX_CLASS
    &&& (1u64 << k) >= padded
    &&& k > MIN_CLASS ==> (1u64 << (k - 1)) < padded
}

/// Only one class serves a given size.
pub proof fn lemma_class_unique(k1: u64, k2: u64, size: u64)
    requires
        spec_is_class_of(k1, size),
        spec_is_class_of(k2, size),
    ensures
        k1 == k2,
{
    let padded: u64 = if size < 16 {
        16u64
    } else {
        size
    };
    if k1 < k2 {
        assert(k1 <= k2 - 1 && k2 >= 1 ==> (1u64 << k1) <= (1u64 << ((k2 - 1) as u64)) || k2 > 64)
            by (bit_vector);
        assert(false);
    }
    if k2 < k1 {
        assert(k2 <= k1 - 1 && k1 >= 1 ==> (1u64 << k2) <= (1u64 << ((k1 - 1) as u64)) || k1 > 64)
            by (bit_vector);
        assert(false);
    }
}

/// The kernel heap allocator.
pub struct FreeListAllocator {
    /// Free cells by size class; the top of each stack is the most
    /// recently freed or split cell of that class.
    pub cells: Vec<Vec<u64>>,
    /// First virtual address of the window not yet backed.
    pub cursor: u64,
    /// Currently backed 2M pages: virtual page base and backing frame base.
    pub backing: Vec<(u64, u64)>,
    /// High-water mark of `backing`'s length.
    pub peak_backed: u64,
}

impl FreeListAllocator {
    /// Every cell of class `k` is `2^k` bytes, `2^k`-aligned, and lies
    /// inside the backed part of the window; classes below the minimum are
    /// unused.
    pub open spec fn wf(self) -> bool {
        &&& self.cells@.len() == 33
        &&& forall|k: int, j: int|
            0 <= k < 33 && 0 <= j < self.cells@[k]@.len() ==> {
                &&& spec_aligned(#[trigger] self.cells@[k]@[j], (1u64 << k as u64) as nat)
                &&& KERNEL_HEAP_BASE <= self.cells@[k]@[j]
                &&& self.cells@[k]@[j] + (1u64 << k as u64) <= KERNEL_HEAP_BASE + KERNEL_HEAP_SIZE
            }
        &&& forall|k: int| 0 <= k < MIN_CLASS ==> self.cells@[k]@.len() == 0
        &&& spec_aligned(self.cursor, 0x20_0000)
        &&& KERNEL_HEAP_BASE <= self.cursor <= KERNEL_HEAP_BASE + KERNEL_HEAP_SIZE
        &&& self.backing@.len() <= self.peak_backed
    }

    /// A heap that has backed nothing yet and holds no free cells.
    pub fn new() -> (r: FreeListAllocator)
        ensures
            r.wf(),
            r.cursor == KERNEL_HEAP_BASE,
            r.backing@.len() == 0,
            r.peak_backed == 0,
            forall|k: int| 0 <= k < 33 ==> r.cells@[k]@.len() == 0,
    {
        let mut cells: Vec<Vec<u64>> = Vec::new();
        let mut i: usize = 0;
        while i < 33
            invariant
                0 <= i <= 33,
                cells@.len() == i,
                forall|k: int| 0 <= k < i ==> cells@[k]@.len() == 0,
            decreases 33 - i,
        {
            cells.push(Vec::new());
            i = i + 1;
        }
        proof {
            assert(spec_aligned(KERNEL_HEAP_BASE, 0x20_0000)) by {
                assert(KERNEL_HEAP_BASE as int == 0x400_0000 * 0x20_0000);
                vstd::arithmetic::div_mod::lemma_mod_multiples_basic(0x400_0000, 0x20_0000);
            }
        }
        FreeListAllocator { cells, cursor: KERNEL_HEAP_BASE, backing: Vec::new(), peak_backed: 0 }
    }

    /// Nothing to do: the window is reserved by its constants.
    pub fn init(&mut self)
        ensures
            *final(self) == *old(self),
    {
    }

    /// Smallest cell size that can serve a request of `size` bytes.
    pub fn cell_size(size: u64) -> (r: u64)
        ensures
            r == if size < 16 {
                16u64
            } else {
                size
            },
    {
        if size < 16 {
            16
        } else {
            size
        }
    }

    /// The class of a cell of `block_size` bytes: the smallest power of
    /// two, at least the minimum cell size, that holds it.
    pub fn size_class(block_size: u64) -> (k: u64)
        requires
            1 <= block_size <= 0x1_0000_0000,
        ensures
            MIN_CLASS <= k <= MAX_CLASS,
            (1u64 << k) >= block_size,
            k > MIN_CLASS ==> (1u64 << (k - 1)) < block_size,
    {
        let mut k: u64 = 4;
        proof {
            assert((1u64 << 4) == 16 && (1u64 << 32) == 0x1_0000_0000) by (bit_vector);
        }
        while (1u64 << k) < block_size
            invariant
                4 <= k <= 32,
                block_size <= 0x1_0000_0000,
                k > 4 ==> (1u64 << (k - 1)) < block_size,
                (1u64 << 32) == 0x1_0000_0000,
            decreases 32 - k,
        {
            proof {
                // the largest class already covers any admissible size
                if k == 32 {
                    assert(false);
                }
            }
            k = k + 1;
        }
        k
    }

    /// Take the most recently pushed cell of a class, if any.
    fn pop_cell(&mut self, size_class: usize) -> (r: Option<u64>)
        requires
            old(self).wf(),
            size_class < old(self).cells@.len(),
        ensures
            final(self).wf(),
            final(self).cursor == old(self).cursor,
            final(self).backing == old(self).backing,
            final(self).peak_backed == old(self).peak_backed,
            final(self).cells@.len() == old(self).cells@.len(),
            forall|t: int|
                0 <= t < old(self).cells@.len() && t != size_class ==> final(self).cells@[t] == old(self).cells@[t],
            match r {
                Some(c) => old(self).cells@[size_class as int]@.len() > 0 && c == old(self).cells@[size_class as int]@.last() && final(self).cells@[size_class as int]@
                    == old(self).cells@[size_class as int]@.drop_last(),
                None => old(self).cells@[size_class as int]@.len() == 0
                    && final(self).cells@[size_class as int]@
                    == old(self).cells@[size_class as int]@,
            },
    {
        let mut stack: Vec<u64> = Vec::new();
        self.cells.set_and_swap(size_class, &mut stack);
        let r = stack.pop();
        self.cells.set_and_swap(size_class, &mut stack);
        r
    }

    /// Take a cell of class `size_class`, splitting one from the next
    /// class up if this class is out of cells. The lower tier is never
    /// touched; `None` means no class at or above this one has a cell.
    fn alloc_cell(&mut self, size_class: u64) -> (r: Option<u64>)
        requires
            old(self).wf(),
            MIN_CLASS <= size_class <= 33,
        ensures
            final(self).wf(),
            final(self).cursor == old(self).cursor,
            final(self).backing == old(self).backing,
            final(self).peak_backed == old(self).peak_backed,
            final(self).cells@.len() == 33,
            match r {
                Some(c) => {
                    &&& size_class <= MAX_CLASS
                    &&& spec_has_cell(old(self).cells@, size_class as int)
                    &&& spec_aligned(c, (1u64 << size_class) as nat)
                    &&& KERNEL_HEAP_BASE <= c
                    &&& c + (1u64 << size_class) <= KERNEL_HEAP_BASE + KERNEL_HEAP_SIZE
                    &&& old(self).cells@[size_class as int]@.len() > 0 ==> c == old(self).cells@[size_class as int]@.last() && final(self).cells@[size_class as int]@ == old(self).cells@[size_class as int]@.drop_last()
                        && (forall|t: int|
                        0 <= t < 33 && t != size_class ==> final(self).cells@[t] == old(self).cells@[t])
                },
                None => {
                    &&& !spec_has_cell(old(self).cells@, size_class as int)
                    &&& forall|t: int|
                        0 <= t < 33 ==> final(self).cells@[t]@ == old(self).cells@[t]@
                },
            },
        decreases 34 - size_class,
    {
        if size_class > 32 {
            proof {
                assert(!spec_has_cell(self.cells@, size_class as int));
            }
            return None;
        }
        let ghost h0 = *self;
        match self.pop_cell(size_class as usize) {
            Some(c) => Some(c),
            None => {
                match self.alloc_cell(size_class + 1) {
                    None => {
                        proof {
                            assert(!spec_has_cell(h0.cells@, size_class as int)) by {
                                assert(h0.cells@[size_class as int]@.len() == 0);
                                assert(forall|j: int|
                                    size_class + 1 <= j < 33 ==> h0.cells@[j]@.len() == 0) by {
                                    assert(!spec_has_cell(h0.cells@, size_class as int + 1));
                                }
                            }
                        }
                        None
                    },
                    Some(c0) => {
                        let k = size_class;
                        proof {
                            assert(spec_has_cell(h0.cells@, size_class as int)) by {
                                let j = choose|j: int|
                                    size_class + 1 <= j < 33 && h0.cells@[j]@.len() > 0;
                                assert(size_class <= j < 33 && h0.cells@[j]@.len() > 0);
                            }
                            let kk = k;
                            assert(kk <= 31 ==> (1u64 << (kk + 1)) % (1u64 << kk) == 0 && (1u64
                                << kk) + (1u64 << kk) == (1u64 << (kk + 1)) && (1u64 << kk) > 0)
                                by (bit_vector);
                            crate::physical::lemma_aligned_multiple(c0, (1u64 << (k + 1)) as nat, (
                            1u64 << k) as nat);
                            assert(spec_aligned((c0 + (1u64 << k)) as u64, (1u64 << k) as nat))
                                by {
                                crate::addr::lemma_mod_add_zero(c0 as int, (1u64 << k) as int, (
                                1u64 << k) as int);
                                vstd::arithmetic::div_mod::lemma_mod_self_0((1u64 << k) as int);
                            }
                        }
                        let c1 = c0 + (1u64 << k);
                        self.push_cell(k as usize, c1);
                        Some(c0)
                    },
                }
            },
        }
    }

    /// One probe of the current class only: the fast path of allocation.
    fn alloc_cell_fast(&mut self, size_class: u64) -> (r: Option<u64>)
        requires
            old(self).wf(),
            MIN_CLASS <= size_class <= MAX_CLASS,
        ensures
            final(self).wf(),
            final(self).cursor == old(self).cursor,
            final(self).backing == old(self).backing,
            final(self).peak_backed == old(self).peak_backed,
            final(self).cells@.len() == 33,
            match r {
                Some(c) => old(self).cells@[size_class as int]@.len() > 0 && c == old(self).cells@[size_class as int]@.last() && final(self).cells@[size_class as int]@
                    == old(self).cells@[size_class as int]@.drop_last() && (forall|t: int|
                    0 <= t < 33 && t != size_class ==> final(self).cells@[t] == old(self).cells@[t]),
                None => old(self).cells@[size_class as int]@.len() == 0 && (forall|t: int|
                    0 <= t < 33 ==> final(self).cells@[t]@ == old(self).cells@[t]@),
            },
    {
        self.pop_cell(size_class as usize)
    }

    /// Reserve `pages` consecutive 2M pages of the window and back each
    /// with a freshly acquired physical frame. On failure the heap is
    /// untouched and any frames taken for the attempt are returned.
    fn allocate_pages(&mut self, pages: u64, physical: &mut PhysicalMemory) -> (r: Result<
        (u64, u64),
        KernelError,
    >)
        requires
            old(self).wf(),
            old(physical).wf(),
            1 <= pages <= 4096,
        ensures
            final(self).wf(),
            final(physical).wf(),
            final(physical).initial_bytes == old(physical).initial_bytes,
            final(self).cells == old(self).cells,
            match r {
                Ok(range) => {
                    &&& range.0 == old(self).cursor
                    &&& range.1 == range.0 + pages * 0x20_0000
                    &&& final(self).cursor == range.1
                    &&& final(self).backing@.len() == old(self).backing@.len() + pages
                    &&& final(self).peak_backed >= final(self).backing@.len()
                    &&& final(self).peak_backed == if old(self).peak_backed >= old(self).backing@.len() + pages {
                        old(self).peak_backed as int
                    } else {
                        old(self).backing@.len() + pages
                    }
                },
                Err(e) => {
                    &&& e == KernelError::OutOfMemory
                    &&& final(self).cursor == old(self).cursor
                    &&& final(self).backing == old(self).backing
                    &&& final(self).peak_backed == old(self).peak_backed
                },
            },
    {
        let remaining = (KERNEL_HEAP_BASE + KERNEL_HEAP_SIZE) - self.cursor;
        if remaining / 0x20_0000 < pages {
            return Err(KernelError::OutOfMemory);
        }
        proof {
            assert(pages * 0x20_0000 <= remaining) by (nonlinear_arith)
                requires
                    pages <= remaining / 0x20_0000,
                    pages >= 1,
                    remaining >= 0,
            ;
        }
        let mut got: Vec<u64> = Vec::new();
        let mut i: u64 = 0;
        while i < pages
            invariant
                0 <= i <= pages,
                got@.len() == i,
                self.wf(),
                *self == *old(self),
                physical.wf(),
                physical.initial_bytes == old(physical).initial_bytes,
                forall|j: int| 0 <= j < i ==> spec_aligned(#[trigger] got@[j], 0x20_0000),
            decreases pages - i,
        {
            match physical.acquire(PageSize::Size2M) {
                Some(f) => {
                    got.push(f.base);
                },
                None => {
                    // give back what the attempt already took
                    let mut j: usize = 0;
                    while j < got.len()
                        invariant
                            0 <= j <= got@.len(),
                            physical.wf(),
                            physical.initial_bytes == old(physical).initial_bytes,
                            self.wf(),
                            *self == *old(self),
                            forall|jj: int|
                                0 <= jj < got@.len() ==> spec_aligned(#[trigger] got@[jj],
                                0x20_0000),
                        decreases got@.len() - j,
                    {
                        let fr = Frame { size: PageSize::Size2M, base: got[j] };
                        let _ = physical.release_checked(fr);
                        j = j + 1;
                    }
                    return Err(KernelError::OutOfMemory);
                },
            }
            i = i + 1;
        }
        let start = self.cursor;
        let mut i2: u64 = 0;
        proof {
            assert(start + pages * 0x20_0000 <= KERNEL_HEAP_BASE + KERNEL_HEAP_SIZE);
        }
        while i2 < pages
            invariant
                0 <= i2 <= pages,
                got@.len() == pages,
                self.cells == old(self).cells,
                self.cursor == old(self).cursor,
                self.peak_backed == old(self).peak_backed,
                self.backing@.len() == old(self).backing@.len() + i2,
                old(self).wf(),
                start == old(self).cursor,
                start + pages * 0x20_0000 <= KERNEL_HEAP_BASE + KERNEL_HEAP_SIZE,
                i2 * 0x20_0000 <= pages * 0x20_0000,
            decreases pages - i2,
        {
            proof {
                assert(i2 * 0x20_0000 < pages * 0x20_0000) by (nonlinear_arith)
                    requires
                        i2 < pages,
                ;
                assert((i2 + 1) * 0x20_0000 == i2 * 0x20_0000 + 0x20_0000);
            }
            self.backing.push((start + i2 * 0x20_0000, got[i2 as usize]));
            i2 = i2 + 1;
        }
        proof {
            assert(spec_aligned((start + pages * 0x20_0000) as u64, 0x20_0000)) by {
                crate::addr::lemma_mod_add_zero(start as int, (pages * 0x20_0000) as int,
                    0x20_0000);
                vstd::arithmetic::div_mod::lemma_mod_multiples_basic(pages as int, 0x20_0000);
            }
        }
        self.cursor = start + pages * 0x20_0000;
        if self.backing.len() as u64 > self.peak_backed {
            self.peak_backed = self.backing.len() as u64;
        }
        Ok((start, start + pages * 0x20_0000))
    }

    /// Push a free cell onto its class's stack.
    fn push_cell(&mut self, size_class: usize, cell: u64)
        requires
            old(self).wf(),
            MIN_CLASS <= size_class < old(self).cells@.len(),
            spec_aligned(cell, (1u64 << size_class as u64) as nat),
            KERNEL_HEAP_BASE <= cell,
            cell + (1u64 << size_class as u64) <= KERNEL_HEAP_BASE + KERNEL_HEAP_SIZE,
        ensures
            final(self).wf(),
            final(self).cursor == old(self).cursor,
            final(self).backing == old(self).backing,
            final(self).peak_backed == old(self).peak_backed,
            final(self).cells@.len() == old(self).cells@.len(),
            forall|t: int|
                0 <= t < old(self).cells@.len() && t != size_class ==> final(self).cells@[t] == old(self).cells@[t],
            final(self).cells@[size_class as int]@ == old(self).cells@[size_class as int]@.push(
                cell,
            ),
    {
        let mut stack: Vec<u64> = Vec::new();
        self.cells.set_and_swap(size_class, &mut stack);
        stack.push(cell);
        self.cells.set_and_swap(size_class, &mut stack);
    }

    /// The largest class whose cell is aligned at `cur` and still fits
    /// before `e`: how growth carves fresh pages into free cells.
    fn largest_class(cur: u64, e: u64) -> (k: u64)
        requires
            spec_aligned(cur, 16),
            cur + 16 <= e,
            e <= KERNEL_HEAP_BASE + KERNEL_HEAP_SIZE,
        ensures
            MIN_CLASS <= k <= MAX_CLASS,
            spec_aligned(cur, (1u64 << k) as nat),
            cur + (1u64 << k) <= e,
    {
        proof {
            assert forall|a: u64| a <= 32 implies (1u64 << a) >= 1 by {
                assert(a <= 32 ==> (1u64 << a) >= 1) by (bit_vector);
            }
        }
        let mut kk: u64 = 32;
        while kk > 4 && (cur % (1u64 << kk) != 0 || e - cur < (1u64 << kk))
            invariant
                4 <= kk <= 32,
                spec_aligned(cur, 16),
                cur + 16 <= e,
                forall|a: u64| a <= 32 ==> (1u64 << a) >= 1,
            decreases kk,
        {
            kk = kk - 1;
        }
        proof {
            if kk == 4 {
                assert((1u64 << 4) == 16) by (bit_vector);
            }
            assert(cur % (1u64 << kk) == 0 ==> spec_aligned(cur, (1u64 << kk) as nat));
        }
        kk
    }

    /// The slow allocation path: split from above if possible, otherwise
    /// grow the backed window by twice the rounded request, carve the new
    /// space into the largest aligned cells, and retry once. Exhaustion is
    /// reported only when no class at or above the request held a cell.
    fn alloc_cell_slow(&mut self, size_class: u64, physical: &mut PhysicalMemory) -> (r: Result<
        u64,
        KernelError,
    >)
        requires
            old(self).wf(),
            old(physical).wf(),
            MIN_CLASS <= size_class <= MAX_CLASS,
        ensures
            final(self).wf(),
            final(physical).wf(),
            final(physical).initial_bytes == old(physical).initial_bytes,
            final(self).cells@.len() == 33,
            match r {
                Ok(c) => {
                    &&& spec_aligned(c, (1u64 << size_class) as nat)
                    &&& KERNEL_HEAP_BASE <= c
                    &&& c + (1u64 << size_class) <= KERNEL_HEAP_BASE + KERNEL_HEAP_SIZE
                    &&& old(self).cells@[size_class as int]@.len() > 0 ==> c == old(self).cells@[size_class as int]@.last()
                        && final(self).cells@[size_class as int]@
                        == old(self).cells@[size_class as int]@.drop_last()
                        && (forall|t: int|
                        0 <= t < 33 && t != size_class ==> final(self).cells@[t] == old(self).cells@[t])
                },
                Err(e) => {
                    &&& e == KernelError::OutOfMemory
                    &&& !spec_has_cell(old(self).cells@, size_class as int)
                },
            },
            spec_has_cell(old(self).cells@, size_class as int) ==> r is Ok && final(self).cursor
                == old(self).cursor && final(self).backing == old(self).backing && final(self).peak_backed == old(self).peak_backed,
            !spec_has_cell(old(self).cells@, size_class as int) && r is Ok ==> {
                &&& final(self).backing@.len() == old(self).backing@.len() + spec_grow_pages(
                    size_class as nat,
                )
                &&& final(self).cursor == old(self).cursor + spec_grow_pages(size_class as nat)
                    * 0x20_0000
            },
    {
        let ghost h0 = *self;
        match self.alloc_cell(size_class) {
            Some(c) => Ok(c),
            None => {
                let cell_bytes = 1u64 << size_class;
                proof {
                    let kk = size_class;
                    assert(4 <= kk <= 32 ==> (1u64 << kk) + 0x1f_ffff <= 0x1_001f_ffff) by (bit_vector);
                }
                let pages = ((cell_bytes + 0x1f_ffff) >> 21) << 1;
                proof {
                    let kk = size_class;
                    let x = (cell_bytes + 0x1f_ffff) as u64;
                    assert(x <= 0x1_001f_ffff ==> 0 <= ((x >> 21) << 1) <= 4096 && (((x >> 21)
                        << 1) as int) == (x as int / 0x20_0000) * 2) by (bit_vector);
                    assert(4 <= kk <= 32 ==> 2 <= ((((1u64 << kk) + 0x1f_ffff) as u64 >> 21)
                        << 1)) by (bit_vector);
                    assert(pages == spec_grow_pages(size_class as nat));
                }
                match self.allocate_pages(pages, physical) {
                    Err(e) => Err(e),
                    Ok(range) => {
                        let (s0, e0) = range;
                        let ghost h1 = *self;
                        let mut cur = s0;
                        proof {
                            crate::physical::lemma_aligned_multiple(cur, 0x20_0000, 16);
                            assert(spec_aligned(e0, 0x20_0000)) by {
                                crate::addr::lemma_mod_add_zero(s0 as int, (pages
                                    * 0x20_0000) as int, 0x20_0000);
                                vstd::arithmetic::div_mod::lemma_mod_multiples_basic(
                                    pages as int, 0x20_0000);
                            }
                            crate::physical::lemma_aligned_multiple(e0, 0x20_0000, 16);
                            assert(s0 < e0) by (nonlinear_arith)
                                requires
                                    e0 == s0 + pages * 0x20_0000,
                                    pages >= 1,
                            ;
                        }
                        while cur < e0
                            invariant
                                self.wf(),
                                self.cells@.len() == 33,
                                s0 <= cur <= e0,
                                spec_aligned(cur, 16),
                                spec_aligned(e0, 16),
                                KERNEL_HEAP_BASE <= s0,
                                e0 <= KERNEL_HEAP_BASE + KERNEL_HEAP_SIZE,
                                self.cursor == h1.cursor,
                                self.backing == h1.backing,
                                self.peak_backed == h1.peak_backed,
                            decreases e0 - cur,
                        {
                            proof {
                                assert(e0 - cur >= 16) by (nonlinear_arith)
                                    requires
                                        cur < e0,
                                        cur as int % 16 == 0,
                                        e0 as int % 16 == 0,
                                ;
                            }
                            let k = Self::largest_class(cur, e0);
                            self.push_cell(k as usize, cur);
                            proof {
                                let kk = k;
                                assert(4 <= kk <= 32 ==> (1u64 << kk) % 16 == 0) by (bit_vector);
                                assert(spec_aligned((cur + (1u64 << k)) as u64, 16)) by {
                                    crate::addr::lemma_mod_add_zero(cur as int, (1u64
                                        << k) as int, 16);
                                }
                            }
                            cur = cur + (1u64 << k);
                        }
                        match self.alloc_cell(size_class) {
                            Some(c) => Ok(c),
                            None => Err(KernelError::OutOfMemory),
                        }
                    },
                }
            },
        }
    }

    /// Serve an allocation of `size` bytes: pop from the request's class
    /// if a cell is ready, otherwise take the slow path. The result is
    /// always aligned to the class size.
    pub fn allocate(&mut self, size: u64, physical: &mut PhysicalMemory) -> (r: Result<
        u64,
        KernelError,
    >)
        requires
            old(self).wf(),
            old(physical).wf(),
            1 <= size <= 0x1_0000_0000,
        ensures
            final(self).wf(),
            final(physical).wf(),
            final(physical).initial_bytes == old(physical).initial_bytes,
            final(self).cells@.len() == 33,
            forall|k: u64|
                spec_is_class_of(k, size) ==> {
                    &&& (old(self).cells@[k as int]@.len() > 0 ==> r == Ok::<u64, KernelError>(
                        old(self).cells@[k as int]@.last(),
                    ) && final(self).cells@[k as int]@ == old(self).cells@[k as int]@.drop_last()
                        && (forall|t: int|
                        0 <= t < 33 && t != k ==> final(self).cells@[t] == old(self).cells@[t])
                        && final(self).cursor == old(self).cursor && final(self).backing == old(self).backing && final(self).peak_backed == old(self).peak_backed)
                    &&& (r matches Ok(c) ==> spec_aligned(c, (1u64 << k) as nat)
                        && KERNEL_HEAP_BASE <= c && c + (1u64 << k) <= KERNEL_HEAP_BASE
                        + KERNEL_HEAP_SIZE)
                    &&& (spec_has_cell(old(self).cells@, k as int) ==> r is Ok)
                    &&& (r is Err ==> r == Err::<u64, KernelError>(KernelError::OutOfMemory)
                        && !spec_has_cell(old(self).cells@, k as int))
                },
    {
        let cs = Self::cell_size(size);
        let k = Self::size_class(cs);
        let ghost h0 = *self;
        let r = match self.alloc_cell_fast(k) {
            Some(c) => Ok(c),
            None => self.alloc_cell_slow(k, physical),
        };
        proof {
            assert(spec_is_class_of(k, size));
            assert forall|k2: u64| spec_is_class_of(k2, size) implies k2 == k by {
                lemma_class_unique(k2, k, size);
            }
            if h0.cells@[k as int]@.len() > 0 {
                assert(r == Ok::<u64, KernelError>(h0.cells@[k as int]@.last()));
            }
        }
        r
    }

    /// Return a cell to its class. Afterwards any whole free cells of 2M
    /// or more give their backing pages back to the lower tier.
    pub fn free(&mut self, start: u64, size: u64, physical: &mut PhysicalMemory)
        requires
            old(self).wf(),
            old(physical).wf(),
            1 <= size <= 0x1_0000_0000,
            forall|k: u64|
                spec_is_class_of(k, size) ==> spec_aligned(start, (1u64 << k) as nat)
                    && KERNEL_HEAP_BASE <= start && start + (1u64 << k) <= KERNEL_HEAP_BASE
                    + KERNEL_HEAP_SIZE,
        ensures
            final(self).wf(),
            final(physical).wf(),
            final(physical).initial_bytes == old(physical).initial_bytes,
            final(self).cells@.len() == 33,
            final(self).cursor == old(self).cursor,
            forall|k: u64|
                spec_is_class_of(k, size) && k < 21 ==> final(self).cells@[k as int]@ == old(self).cells@[k as int]@.push(start) && (forall|t: int|
                    0 <= t < 21 && t != k ==> final(self).cells@[t] == old(self).cells@[t]),
            forall|t: int| 21 <= t < 33 ==> final(self).cells@[t]@.len() == 0,
    {
        let cs = Self::cell_size(size);
        let k = Self::size_class(cs);
        proof {
            assert(spec_is_class_of(k, size));
            assert forall|k2: u64| spec_is_class_of(k2, size) implies k2 == k by {
                lemma_class_unique(k2, k, size);
            }
        }
        self.push_cell(k as usize, start);
        self.release_large_pages(physical);
    }

    /// Drain every free cell of 2M or more and hand its backing pages
    /// back: the lower tier releases the frames to the physical pool.
    fn release_large_pages(&mut self, physical: &mut PhysicalMemory)
        requires
            old(self).wf(),
            old(physical).wf(),
        ensures
            final(self).wf(),
            final(physical).wf(),
            final(physical).initial_bytes == old(physical).initial_bytes,
            final(self).cells@.len() == 33,
            final(self).cursor == old(self).cursor,
            final(self).peak_backed == old(self).peak_backed,
            forall|t: int| 0 <= t < 21 ==> final(self).cells@[t] == old(self).cells@[t],
            forall|t: int| 21 <= t < 33 ==> final(self).cells@[t]@.len() == 0,
    {
        let mut sc: usize = 21;
        while sc < 33
            invariant
                21 <= sc <= 33,
                self.wf(),
                self.cells@.len() == 33,
                physical.wf(),
                physical.initial_bytes == old(physical).initial_bytes,
                self.cursor == old(self).cursor,
                self.peak_backed == old(self).peak_backed,
                forall|t: int| 0 <= t < 21 ==> self.cells@[t] == old(self).cells@[t],
                forall|t: int| 21 <= t < sc ==> self.cells@[t]@.len() == 0,
            decreases 33 - sc,
        {
            let mut more = true;
            while more
                invariant
                    21 <= sc < 33,
                    self.wf(),
                    self.cells@.len() == 33,
                    physical.wf(),
                    physical.initial_bytes == old(physical).initial_bytes,
                    self.cursor == old(self).cursor,
                    self.peak_backed == old(self).peak_backed,
                    forall|t: int| 0 <= t < 21 ==> self.cells@[t] == old(self).cells@[t],
                    forall|t: int| 21 <= t < sc ==> self.cells@[t]@.len() == 0,
                    !more ==> self.cells@[sc as int]@.len() == 0,
                decreases self.cells@[sc as int]@.len() + (if more {
                    1int
                } else {
                    0int
                }),
            {
                match self.pop_cell(sc) {
                    None => {
                        more = false;
                    },
                    Some(cell) => {
                        self.release_cell_pages(sc as u64, cell, physical);
                    },
                }
            }
            sc = sc + 1;
        }
    }

    /// Give the 2M pages under one drained big cell back to the pool.
    fn release_cell_pages(&mut self, sc: u64, cell: u64, physical: &mut PhysicalMemory)
        requires
            old(self).wf(),
            old(physical).wf(),
            21 <= sc < 33,
            spec_aligned(cell, (1u64 << sc) as nat),
            cell + (1u64 << sc) <= KERNEL_HEAP_BASE + KERNEL_HEAP_SIZE,
        ensures
            final(self).wf(),
            final(physical).wf(),
            final(physical).initial_bytes == old(physical).initial_bytes,
            final(self).cells == old(self).cells,
            final(self).cursor == old(self).cursor,
            final(self).peak_backed == old(self).peak_backed,
    {
        let pages = 1u64 << (sc - 21);
        proof {
            let kk = sc;
            assert(21 <= kk < 33 ==> (1u64 << ((kk - 21) as u64)) * 0x20_0000 == (1u64 << kk) && (
            1u64 << ((kk - 21) as u64)) >= 1 && (1u64 << kk) % 0x20_0000 == 0) by (bit_vector);
            crate::physical::lemma_aligned_multiple(cell, (1u64 << sc) as nat, 0x20_0000);
        }
        let mut p: u64 = 0;
        while p < pages
            invariant
                0 <= p <= pages,
                pages * 0x20_0000 == (1u64 << sc),
                spec_aligned(cell, 0x20_0000),
                cell + (1u64 << sc) <= KERNEL_HEAP_BASE + KERNEL_HEAP_SIZE,
                self.wf(),
                physical.wf(),
                physical.initial_bytes == old(physical).initial_bytes,
                self.cells == old(self).cells,
                self.cursor == old(self).cursor,
                self.peak_backed == old(self).peak_backed,
            decreases pages - p,
        {
            proof {
                assert(p * 0x20_0000 + 0x20_0000 <= pages * 0x20_0000) by (nonlinear_arith)
                    requires
                        p < pages,
                ;
                assert(spec_aligned((cell + p * 0x20_0000) as u64, 0x20_0000)) by {
                    crate::addr::lemma_mod_add_zero(cell as int, (p * 0x20_0000) as int,
                        0x20_0000);
                    vstd::arithmetic::div_mod::lemma_mod_multiples_basic(p as int, 0x20_0000);
                }
            }
            let va = cell + p * 0x20_0000;
            self.release_backing(va, physical);
            p = p + 1;
        }
    }

    /// Drop the backing record for one 2M page and release its frame.
    fn release_backing(&mut self, va: u64, physical: &mut PhysicalMemory)
        requires
            old(self).wf(),
            old(physical).wf(),
        ensures
            final(self).wf(),
            final(physical).wf(),
            final(physical).initial_bytes == old(physical).initial_bytes,
            final(self).cells == old(self).cells,
            final(self).cursor == old(self).cursor,
            final(self).peak_backed == old(self).peak_backed,
    {
        let n = self.backing.len();
        let mut i: usize = 0;
        while i < n
            invariant
                0 <= i <= n,
                n == self.backing@.len(),
                self.wf(),
                physical.wf(),
                physical.initial_bytes == old(physical).initial_bytes,
                self.cells == old(self).cells,
                self.cursor == old(self).cursor,
                self.peak_backed == old(self).peak_backed,
                self.backing == old(self).backing,
            decreases n - i,
        {
            let (bva, fb) = self.backing[i];
            if bva == va {
                let fb_aligned = fb % 0x20_0000 == 0;
                self.backing.swap_remove(i);
                if fb_aligned {
                    let fr = Frame { size: PageSize::Size2M, base: fb };
                    let _ = physical.release_checked(fr);
                }
                return ;
            }
            i = i + 1;
        }
    }
}

/// The first allocation of a class after a cell of that class was freed
/// returns exactly the freed cell: within one size class the most
/// recently freed cell is first in line.
pub proof fn lemma_heap_idempotent_free(
    before: FreeListAllocator,
    after_free: FreeListAllocator,
    p: u64,
    k: u64,
)
    requires
        MIN_CLASS <= k < 21,
        after_free.cells@.len() == 33,
        after_free.cells@[k as int]@ == before.cells@[k as int]@.push(p),
    ensures
        after_free.cells@[k as int]@.len() > 0,
        after_free.cells@[k as int]@.last() == p,
{
}

} // verus!
