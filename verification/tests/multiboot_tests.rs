use phys_mem::memory::MemoryRegion;
use phys_mem::multiboot::{
    Info, MemoryMapEntry, MemoryRegionIterator, PhysicalMemoryMap, INFO_MEMORY, INFO_MEM_MAP,
    MEMORY_AVAILABLE, MEMORY_RESERVED,
};

fn sample_info() -> Info {
    let entries = vec![
        MemoryMapEntry { size: 20, addr: 0x0, len: 0x9f000, mem_type: MEMORY_AVAILABLE },
        MemoryMapEntry { size: 20, addr: 0x9f000, len: 0x1000, mem_type: MEMORY_RESERVED },
        MemoryMapEntry { size: 20, addr: 0x100000, len: 0x700000, mem_type: MEMORY_AVAILABLE },
    ];
    Info::new(INFO_MEMORY | INFO_MEM_MAP, 640, 7168, entries)
}

#[test]
fn flag_queries() {
    let info = sample_info();
    assert!(info.is_memory_size_available());
    assert!(info.is_memory_map_available());

    let bare = Info::new(0, 0, 0, Vec::new());
    assert!(!bare.is_memory_size_available());
    assert!(!bare.is_memory_map_available());
}

#[test]
fn memory_sizes_in_bytes() {
    let info = sample_info();
    assert_eq!(640 * 1024, info.get_lower_memory());
    assert_eq!(7168 * 1024, info.get_upper_memory());
}

#[test]
fn available_regions_filter_reserved_entries() {
    let info = sample_info();
    let regions = info.available_memory_regions();
    assert_eq!(2, regions.len());
    assert_eq!(MemoryRegion { addr: 0x0, size: 0x9f000 }, regions[0]);
    assert_eq!(MemoryRegion { addr: 0x100000, size: 0x700000 }, regions[1]);
}

#[test]
fn total_memory_sums_available_regions() {
    let info = sample_info();
    assert_eq!(0x9f000 + 0x700000, info.total_memory_available());
}

#[test]
fn region_iterator_walks_in_order() {
    let info = sample_info();
    let mut iter = MemoryRegionIterator::new(info.available_memory_regions());
    assert_eq!(Some(MemoryRegion { addr: 0x0, size: 0x9f000 }), iter.next());
    assert_eq!(Some(MemoryRegion { addr: 0x100000, size: 0x700000 }), iter.next());
    assert_eq!(None, iter.next());
    assert_eq!(None, iter.next());
}
