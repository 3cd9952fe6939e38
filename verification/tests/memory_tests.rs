use phys_mem::memory::{next_page_addr, page_addr, MemoryRegion, PAGE_SIZE};

#[test]
fn region_boundaries() {
    let region = MemoryRegion { addr: 0x1000, size: 0x800 };
    assert_eq!(0x17ff, region.end_addr());
    assert_eq!(0x1800, region.next_addr_after());
    assert!(region.addr_in(0x1000));
    assert!(region.addr_in(0x17ff));
    assert!(!region.addr_in(0xfff));
    assert!(!region.addr_in(0x1800));
}

#[test]
fn next_adjacent_follows_immediately() {
    let region = MemoryRegion { addr: 0x1000, size: 0x800 };
    let next = region.next_adjacent(0x123);
    assert_eq!(0x1800, next.addr);
    assert_eq!(0x123, next.size);
}

#[test]
fn page_align_covers_the_region_with_aligned_bounds() {
    let region = MemoryRegion { addr: 0x1234, size: 0x100 };
    let aligned = region.page_align(PAGE_SIZE);
    assert_eq!(0x1000, aligned.addr);
    assert_eq!(0x1000, aligned.size);

    let exact = MemoryRegion { addr: 0x2000, size: 0x1000 };
    let aligned_exact = exact.page_align(PAGE_SIZE);
    assert_eq!(0x2000, aligned_exact.addr);
    assert_eq!(0x1000, aligned_exact.size);
}

#[test]
fn page_address_helpers() {
    assert_eq!(0x1000, page_addr(0x1234, PAGE_SIZE));
    assert_eq!(0x1000, page_addr(0x1000, PAGE_SIZE));
    assert_eq!(0x2000, next_page_addr(0x1234, PAGE_SIZE));
    assert_eq!(0x2000, next_page_addr(0x1000, PAGE_SIZE));
}

#[test]
fn pages_iter_walks_contained_pages() {
    let region = MemoryRegion { addr: 0x0800, size: 0x3000 };
    let mut iter = region.pages_iter(PAGE_SIZE);
    /* Pages fully inside [0x0800, 0x3800): 0x1000 and 0x2000. */
    let first = iter.next().unwrap();
    assert_eq!(0x1000, first.addr);
    assert_eq!(PAGE_SIZE, first.size);
    let second = iter.next().unwrap();
    assert_eq!(0x2000, second.addr);
    assert_eq!(PAGE_SIZE, second.size);
    assert!(iter.next().is_none());
    assert!(iter.next().is_none());
}

#[test]
fn pages_iter_on_subpage_region_yields_nothing() {
    let region = MemoryRegion { addr: 0x0800, size: 0x100 };
    let mut iter = region.pages_iter(PAGE_SIZE);
    assert!(iter.next().is_none());
}
