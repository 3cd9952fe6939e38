use phys_mem::layout::KernelLayout;
use phys_mem::multiboot::{Info, MemoryMapEntry, INFO_MEM_MAP, MEMORY_AVAILABLE};
use phys_mem::phys_mem_allocator::PhysMemAllocator;
use phys_mem::physical_memory_manager::PhysicalMemoryManager;

/// One available megabyte starting at physical zero: 256 page frames.
fn one_megabyte_map() -> Info {
    let entries = vec![
        MemoryMapEntry { size: 20, addr: 0x0, len: 0x100000, mem_type: MEMORY_AVAILABLE },
    ];
    Info::new(INFO_MEM_MAP, 0, 0, entries)
}

/// A tiny universe of eight page frames.
fn eight_page_map() -> Info {
    let entries = vec![
        MemoryMapEntry { size: 20, addr: 0x0, len: 0x8000, mem_type: MEMORY_AVAILABLE },
    ];
    Info::new(INFO_MEM_MAP, 0, 0, entries)
}

/// The kernel image occupies physical pages 1 and 2; the bitmap then lands on
/// page 3.
fn sample_layout() -> KernelLayout {
    KernelLayout {
        virtual_base: 0x4000_0000,
        begin_vaddr: 0x4000_1000,
        end_vaddr: 0x4000_3000,
    }
}

#[test]
fn init_accounts_for_kernel_and_bitmap_pages() {
    let map = one_megabyte_map();
    let layout = sample_layout();
    let mut manager = PhysicalMemoryManager::new();
    manager.init(&map, &layout);
    assert_eq!(256, manager.total_pages_count());
    /* Reserved: kernel pages 1 and 2, bitmap page 3. */
    assert_eq!(256 - 3, manager.free_pages_count());
}

#[test]
fn uninitialized_manager_controls_nothing() {
    let manager = PhysicalMemoryManager::new();
    assert_eq!(0, manager.total_pages_count());
    assert_eq!(0, manager.free_pages_count());
}

#[test]
fn allocator_init_matches_manager() {
    let map = one_megabyte_map();
    let layout = sample_layout();
    let allocator = PhysMemAllocator::init(&map, &layout);
    assert_eq!(256, allocator.total_pages_count());
    assert_eq!(253, allocator.free_pages_count());
}

#[test]
fn alloc_serves_lowest_free_pages_until_exhaustion() {
    let map = eight_page_map();
    let layout = sample_layout();
    let mut manager = PhysicalMemoryManager::new();
    manager.init(&map, &layout);
    assert_eq!(8, manager.total_pages_count());
    assert_eq!(5, manager.free_pages_count());

    /* First-fit in ascending order, skipping the reserved pages 1..=3. */
    assert_eq!(Some(0x0000), manager.alloc_page());
    assert_eq!(Some(0x4000), manager.alloc_page());
    assert_eq!(Some(0x5000), manager.alloc_page());
    assert_eq!(Some(0x6000), manager.alloc_page());
    assert_eq!(Some(0x7000), manager.alloc_page());
    assert_eq!(0, manager.free_pages_count());

    /* Exhausted: allocation keeps failing until something is freed. */
    assert_eq!(None, manager.alloc_page());
    assert_eq!(None, manager.alloc_page());
    manager.free_page(0x5000);
    assert_eq!(1, manager.free_pages_count());
    assert_eq!(Some(0x5000), manager.alloc_page());
    assert_eq!(None, manager.alloc_page());
}

#[test]
fn alloc_then_free_restores_the_free_count() {
    let map = eight_page_map();
    let layout = sample_layout();
    let mut manager = PhysicalMemoryManager::new();
    manager.init(&map, &layout);
    let before = manager.free_pages_count();
    let page = manager.alloc_page().unwrap();
    assert_eq!(before - 1, manager.free_pages_count());
    manager.free_page(page);
    assert_eq!(before, manager.free_pages_count());
    /* The same frame is first in line again. */
    assert_eq!(Some(page), manager.alloc_page());
}

#[test]
fn holes_between_available_regions_stay_occupied() {
    /* Two available regions with a reserved hole: pages 0..=1 and 4..=7. */
    let entries = vec![
        MemoryMapEntry { size: 20, addr: 0x0, len: 0x2000, mem_type: MEMORY_AVAILABLE },
        MemoryMapEntry { size: 20, addr: 0x4000, len: 0x4000, mem_type: MEMORY_AVAILABLE },
    ];
    let map = Info::new(INFO_MEM_MAP, 0, 0, entries);
    /* Kernel on page 0; its bitmap lands on page 1. */
    let layout = KernelLayout {
        virtual_base: 0x4000_0000,
        begin_vaddr: 0x4000_0000,
        end_vaddr: 0x4000_1000,
    };
    let mut manager = PhysicalMemoryManager::new();
    manager.init(&map, &layout);
    assert_eq!(8, manager.total_pages_count());
    /* Free: pages 4..=7; pages 2 and 3 are the hole, 0 and 1 are reserved. */
    assert_eq!(4, manager.free_pages_count());
    assert_eq!(Some(0x4000), manager.alloc_page());
}
