use sophon::heap::{kernel_heap_memory, FreeListAllocator, KERNEL_HEAP_BASE};
use sophon::physical::PhysicalMemory;

fn pool() -> PhysicalMemory {
    let mut pm = PhysicalMemory::new();
    let mut ranges: Vec<(u64, u64)> = Vec::new();
    ranges.push((0x4000_0000, 0x8000_0000));
    pm.init(ranges);
    pm
}

#[test]
fn class_formula() {
    assert_eq!(FreeListAllocator::cell_size(1), 16);
    assert_eq!(FreeListAllocator::cell_size(48), 48);
    assert_eq!(FreeListAllocator::size_class(16), 4);
    assert_eq!(FreeListAllocator::size_class(17), 5);
    assert_eq!(FreeListAllocator::size_class(48), 6);
    assert_eq!(FreeListAllocator::size_class(64), 6);
    assert_eq!(FreeListAllocator::size_class(65), 7);
    assert_eq!(FreeListAllocator::size_class(0x20_0000), 21);
}

#[test]
fn heap_window_constants() {
    let (lo, hi) = kernel_heap_memory();
    assert_eq!(lo, KERNEL_HEAP_BASE);
    assert_eq!(hi - lo, 0x1_0000_0000);
}

// Heap idempotent free: alloc, free, alloc of the same size returns the
// same cell, first fit within the class.
#[test]
fn idempotent_free() {
    let mut pm = pool();
    let mut heap = FreeListAllocator::new();
    heap.init();
    let p = heap.allocate(48, &mut pm).unwrap();
    heap.free(p, 48, &mut pm);
    let q = heap.allocate(48, &mut pm).unwrap();
    assert_eq!(p, q);
}

#[test]
fn first_allocation_is_aligned_window_base() {
    let mut pm = pool();
    let mut heap = FreeListAllocator::new();
    let p = heap.allocate(48, &mut pm).unwrap();
    // the first growth carves the window base; a 64-byte-class cell
    // aligned to 64 comes back first
    assert_eq!(p % 64, 0);
    assert!(p >= KERNEL_HEAP_BASE);
}

// Heap stress: 1024 sequential 48-byte allocations, freed in reverse
// order. The peak number of backed 2M pages is the doubled single growth
// step, and afterwards the same allocations come back in reverse.
#[test]
fn heap_stress() {
    let mut pm = pool();
    let mut heap = FreeListAllocator::new();
    let mut got: Vec<u64> = Vec::new();
    let mut i = 0;
    while i < 1024 {
        got.push(heap.allocate(48, &mut pm).unwrap());
        i += 1;
    }
    // growth for a 64-byte request takes one 2M page, doubled
    assert_eq!(heap.peak_backed, 2);
    assert_eq!(heap.backing.len(), 2);
    let mut j = got.len();
    while j > 0 {
        j -= 1;
        heap.free(got[j], 48, &mut pm);
    }
    assert_eq!(heap.peak_backed, 2);
    // the class stack replays the frees most recent first
    let mut k = 0;
    while k < 1024 {
        let p = heap.allocate(48, &mut pm).unwrap();
        assert_eq!(p, got[k]);
        k += 1;
    }
}

#[test]
fn big_cells_return_their_pages() {
    let mut pm = pool();
    let mut heap = FreeListAllocator::new();
    let before = pm.free_bytes();
    let p = heap.allocate(0x20_0000, &mut pm).unwrap();
    assert_eq!(p % 0x20_0000, 0);
    let backed_after_alloc = heap.backing.len();
    assert!(backed_after_alloc > 0);
    heap.free(p, 0x20_0000, &mut pm);
    // every whole free cell of 2M or more gives its backing pages back
    assert_eq!(heap.backing.len(), 0);
    assert_eq!(pm.free_bytes(), before);
}
