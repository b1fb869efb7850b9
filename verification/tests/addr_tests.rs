use sophon::addr::{align_down, align_up, flush_cache, is_aligned, Frame, Page, PageSize};

#[test]
fn page_sizes() {
    assert_eq!(PageSize::Size4K.bytes(), 0x1000);
    assert_eq!(PageSize::Size2M.bytes(), 0x20_0000);
    assert_eq!(PageSize::Size1G.bytes(), 0x4000_0000);
    assert_eq!(PageSize::Size4K.log_bytes(), 12);
    assert_eq!(PageSize::Size2M.log_bytes(), 21);
    assert_eq!(PageSize::Size1G.log_bytes(), 30);
    assert_eq!(PageSize::Size2M.frames_4k(), 0x200);
}

#[test]
fn alignment_helpers() {
    assert!(is_aligned(0x2000, 0x1000));
    assert!(!is_aligned(0x2001, 0x1000));
    assert_eq!(align_down(0x2fff, 0x1000), 0x2000);
    assert_eq!(align_down(0x3000, 0x1000), 0x3000);
    assert_eq!(align_up(0x2001, 0x1000), 0x3000);
    assert_eq!(align_up(0x2000, 0x1000), 0x2000);
}

// Alignment invariant: a frame or page built from an aligned address
// carries exactly that address, for each size.
#[test]
fn frame_page_alignment_invariant() {
    let f = Frame::new(PageSize::Size4K, 0x4000_1000);
    assert_eq!(f.start(), 0x4000_1000);
    assert_eq!(f.base % PageSize::Size4K.bytes(), 0);
    let f2 = Frame::new(PageSize::Size2M, 0x4020_0000);
    assert_eq!(f2.base % PageSize::Size2M.bytes(), 0);
    let p = Page::new(PageSize::Size1G, 0x4000_0000);
    assert_eq!(p.base % PageSize::Size1G.bytes(), 0);
    let within = Page::containing(PageSize::Size4K, 0x4000_1234);
    assert_eq!(within.base, 0x4000_1000);
    let stepped = Page::new(PageSize::Size4K, 0x1000).forward(3);
    assert_eq!(stepped.base, 0x4000);
}

#[test]
fn flush_cache_line_bounds() {
    let (lo, hi) = flush_cache(0x1010, 0x1079);
    assert_eq!(lo, 0x1000);
    assert_eq!(hi, 0x1080);
    let (lo2, hi2) = flush_cache(0x1000, 0x1040);
    assert_eq!(lo2, 0x1000);
    assert_eq!(hi2, 0x1040);
}
