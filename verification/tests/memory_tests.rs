use sophon::addr::{Frame, Page, PageSize};
use sophon::page_table::{user_data_flags, PageTable, FLAG_SMALL_PAGE};
use sophon::physical::{PhysicalMemory, SharedPhysicalPage};

fn pool() -> PhysicalMemory {
    let mut pm = PhysicalMemory::new();
    let mut ranges: Vec<(u64, u64)> = Vec::new();
    ranges.push((0x4000_0000, 0x8000_0000));
    pm.init(ranges);
    pm
}

#[test]
fn acquire_prefers_lowest_fit() {
    let mut pm = pool();
    let f1 = pm.acquire(PageSize::Size4K).unwrap();
    assert_eq!(f1.base, 0x4000_0000);
    let f2 = pm.acquire(PageSize::Size4K).unwrap();
    assert_eq!(f2.base, 0x4000_1000);
    let big = pm.acquire(PageSize::Size2M).unwrap();
    assert_eq!(big.base, 0x4020_0000);
}

// Frame conservation: free bytes plus outstanding frames always add up to
// what init absorbed, across any acquire/release interleaving.
#[test]
fn frame_conservation() {
    let mut pm = pool();
    let total = pm.free_bytes();
    assert_eq!(total, 0x4000_0000);
    let f1 = pm.acquire(PageSize::Size4K).unwrap();
    let f2 = pm.acquire(PageSize::Size2M).unwrap();
    assert_eq!(pm.free_bytes(), total - 0x1000 - 0x20_0000);
    assert_eq!(pm.outstanding, 1 + 0x200);
    pm.release(f2);
    assert_eq!(pm.free_bytes(), total - 0x1000);
    assert_eq!(pm.outstanding, 1);
    pm.release(f1);
    assert_eq!(pm.free_bytes(), total);
    assert_eq!(pm.outstanding, 0);
}

#[test]
fn release_merges_back_to_one_range() {
    let mut pm = pool();
    let f1 = pm.acquire(PageSize::Size4K).unwrap();
    let f2 = pm.acquire(PageSize::Size4K).unwrap();
    pm.release(f1);
    pm.release(f2);
    // the pool is one maximal range again
    assert_eq!(pm.ranges.len(), 1);
    assert_eq!(pm.ranges[0], (0x4000_0000, 0x8000_0000));
}

#[test]
fn double_free_is_refused() {
    let mut pm = pool();
    let f1 = pm.acquire(PageSize::Size4K).unwrap();
    let copy = Frame::new(PageSize::Size4K, f1.base);
    assert!(pm.release_checked(f1).is_ok());
    assert!(pm.release_checked(copy).is_err());
}

#[test]
fn acquire_fails_only_when_no_fit_exists() {
    let mut pm = PhysicalMemory::new();
    let mut ranges: Vec<(u64, u64)> = Vec::new();
    ranges.push((0x4000_0000, 0x4000_2000));
    pm.init(ranges);
    // two 4K frames fit, a 2M block does not
    assert!(pm.acquire(PageSize::Size2M).is_none());
    assert!(pm.acquire(PageSize::Size4K).is_some());
    assert!(pm.acquire(PageSize::Size4K).is_some());
    assert!(pm.acquire(PageSize::Size4K).is_none());
}

// Page-table round trip: after map(p, f, flags), translate(p) returns f.
#[test]
fn page_table_round_trip() {
    let mut pm = pool();
    let mut pt = PageTable::alloc_root(&mut pm).unwrap();
    let page = Page::new(PageSize::Size4K, 0x20_0000);
    let frame = pm.acquire(PageSize::Size4K).unwrap();
    let flags = user_data_flags();
    let mapped = pt.map(page, frame, flags, &mut pm).unwrap();
    assert_eq!(mapped.base, page.base);
    let back = pt.translate(page);
    assert_eq!(back.base, frame.base);
    assert_eq!(back.size, PageSize::Size4K);
    // the leaf carries the caller's flags plus the small-page bit
    let (fb, fl) = pt.try_translate(PageSize::Size4K, page.base).unwrap();
    assert_eq!(fb, frame.base);
    assert_eq!(fl, flags | FLAG_SMALL_PAGE);
}

#[test]
fn round_trip_all_sizes() {
    let mut pm = pool();
    let mut pt = PageTable::alloc_root(&mut pm).unwrap();
    let p2 = Page::new(PageSize::Size2M, 0x4000_0000);
    let f2 = pm.acquire(PageSize::Size2M).unwrap();
    pt.map(p2, f2, user_data_flags(), &mut pm).unwrap();
    assert_eq!(pt.translate(p2).base, f2.base);
    let p3 = Page::new(PageSize::Size1G, 0x1_0000_0000);
    let f3 = Frame::new(PageSize::Size1G, 0x4000_0000);
    pt.map(p3, f3, user_data_flags(), &mut pm).unwrap();
    assert_eq!(pt.translate(p3).base, f3.base);
    // mapping one size does not disturb the other
    assert_eq!(pt.translate(p2).base, f2.base);
}

#[test]
fn unmap_clears_only_its_page() {
    let mut pm = pool();
    let mut pt = PageTable::alloc_root(&mut pm).unwrap();
    let pa = Page::new(PageSize::Size4K, 0x20_0000);
    let pb = Page::new(PageSize::Size4K, 0x20_1000);
    let fa = pm.acquire(PageSize::Size4K).unwrap();
    let fb = pm.acquire(PageSize::Size4K).unwrap();
    pt.map(pa, fa, user_data_flags(), &mut pm).unwrap();
    pt.map(pb, fb, user_data_flags(), &mut pm).unwrap();
    pt.unmap(pa);
    assert!(pt.try_translate(PageSize::Size4K, pa.base).is_none());
    assert_eq!(pt.try_translate(PageSize::Size4K, pb.base).unwrap().0, fb.base);
}

#[test]
fn map_reports_exhaustion() {
    // a pool with one 4K frame cannot build the three tables a fresh
    // 4K mapping needs
    let mut pm = PhysicalMemory::new();
    let mut ranges: Vec<(u64, u64)> = Vec::new();
    ranges.push((0x4000_0000, 0x4000_2000));
    pm.init(ranges);
    let mut pt = PageTable::alloc_root(&mut pm).unwrap();
    let page = Page::new(PageSize::Size4K, 0x20_0000);
    let frame = pm.acquire(PageSize::Size4K).unwrap();
    // no frames left for any intermediate table
    assert!(pt.map(page, frame, user_data_flags(), &mut pm).is_err());
}

#[test]
fn shared_page_gives_its_frame_back() {
    let mut pm = pool();
    let before = pm.free_bytes();
    let f = pm.acquire(PageSize::Size4K).unwrap();
    let shared = SharedPhysicalPage::new(f);
    assert_eq!(shared.frame, f);
    assert!(shared.release_to(&mut pm).is_ok());
    assert_eq!(pm.free_bytes(), before);
}
