//! General memory information interface, and the multiboot flavour of it: the
//! boot loader's description of installed RAM, with the raw memory-map buffer
//! modelled as a sequence of parsed entries.

use crate::memory::MemoryRegion;
use vstd::prelude::*;

verus! {

/// Flag: basic lower/upper memory information is present.
pub const INFO_MEMORY: u32 = 0x00000001;

/// Flag: a full memory map is present.
pub const INFO_MEM_MAP: u32 = 0x00000040;

/// Memory-map entry type of usable RAM.
pub const MEMORY_AVAILABLE: u32 = 1;

/// Memory-map entry type of reserved memory.
pub const MEMORY_RESERVED: u32 = 2;

/// Sum of the byte sizes of the given regions.
pub open spec fn spec_total_size(regions: Seq<MemoryRegion>) -> int
    decreases regions.len(),
{
    if regions.len() == 0 {
        0
    } else {
        spec_total_size(regions.drop_last()) + regions.last().size
    }
}

/// Extending a prefix of regions by one adds that region's size to the sum.
pub proof fn lemma_total_size_step(regions: Seq<MemoryRegion>, i: int)
    requires
        0 <= i < regions.len(),
    ensures
        spec_total_size(regions.take(i + 1)) == spec_total_size(regions.take(i))
            + regions[i].size,
{
    assert(regions.take(i + 1).drop_last() =~= regions.take(i));
    assert(regions.take(i + 1).last() == regions[i]);
}

/// A prefix never sums to more than the whole.
pub proof fn lemma_total_size_prefix_bound(regions: Seq<MemoryRegion>, i: int)
    requires
        0 <= i <= regions.len(),
    ensures
        spec_total_size(regions.take(i)) <= spec_total_size(regions),
    decreases regions.len() - i,
{
    if i == regions.len() {
        assert(regions.take(i) =~= regions);
    } else {
        lemma_total_size_step(regions, i);
        lemma_total_size_prefix_bound(regions, i + 1);
    }
}

/// A provider of the firmware's description of usable physical memory. The
/// sequence of available regions is fixed per provider, so enumerating it
/// twice gives identical results.
pub trait PhysicalMemoryMap {
    /// Whether the provider carries a memory map at all.
    spec fn map_available(&self) -> bool;

    /// The available regions, in the order the firmware reports them.
    spec fn regions(&self) -> Seq<MemoryRegion>;

    /// Enumerates the available memory regions.
    fn available_memory_regions(&self) -> (r: Vec<MemoryRegion>)
        requires
            self.map_available(),
        ensures
            r@ == self.regions(),
    ;

    /// Total amount of memory available for the kernel, in bytes.
    fn total_memory_available(&self) -> (r: usize)
        requires
            self.map_available(),
            spec_total_size(self.regions()) <= usize::MAX,
        ensures
            r == spec_total_size(self.regions()),
    {
        let regions = self.available_memory_regions();
        let mut acc: usize = 0;
        let mut i: usize = 0;
        while i < regions.len()
            invariant
                i <= regions@.len(),
                regions@ == self.regions(),
                spec_total_size(self.regions()) <= usize::MAX,
                acc == spec_total_size(regions@.take(i as int)),
            decreases regions@.len() - i,
        {
            proof {
                lemma_total_size_step(regions@, i as int);
                lemma_total_size_prefix_bound(regions@, i as int + 1);
            }
            acc = acc + regions[i].size;
            i = i + 1;
        }
        proof {
            assert(regions@.take(regions@.len() as int) =~= regions@);
        }
        acc
    }
}

/// The section header table for ELF, as multiboot reports it.
pub struct ElfSectionHeaderTable {
    pub num: u32,
    pub size: u32,
    pub addr: u32,
    pub shndx: u32,
}

/// One entry of the boot loader's memory-map buffer.
pub struct MemoryMapEntry {
    pub size: u32,
    pub addr: u64,
    pub len: u64,
    pub mem_type: u32,
}

/// The available regions described by a sequence of memory-map entries, in
/// order: each entry of type `MEMORY_AVAILABLE` contributes its range.
pub open spec fn spec_available_regions(entries: Seq<MemoryMapEntry>) -> Seq<MemoryRegion>
    decreases entries.len(),
{
    if entries.len() == 0 {
        Seq::empty()
    } else {
        let rest = spec_available_regions(entries.drop_last());
        let e = entries.last();
        if e.mem_type == MEMORY_AVAILABLE {
            rest.push(MemoryRegion { addr: e.addr as usize, size: e.len as usize })
        } else {
            rest
        }
    }
}

/// Multiboot information, with the flag word, the BIOS memory sizes, and the
/// memory-map buffer the boot loader left behind.
pub struct Info {
    flags: u32,
    mem_lower: u32,
    mem_upper: u32,
    mmap_entries: Vec<MemoryMapEntry>,
}

impl Info {
    /// Multiboot flag word.
    pub closed spec fn spec_flags(self) -> u32 {
        self.flags
    }

    /// Lower memory size as reported, in KiB.
    pub closed spec fn spec_mem_lower(self) -> u32 {
        self.mem_lower
    }

    /// Upper memory size as reported, in KiB.
    pub closed spec fn spec_mem_upper(self) -> u32 {
        self.mem_upper
    }

    /// The parsed memory-map buffer.
    pub closed spec fn spec_mmap_entries(self) -> Seq<MemoryMapEntry> {
        self.mmap_entries@
    }

    /// Assembles the information block from the values the boot loader left.
    pub fn new(flags: u32, mem_lower: u32, mem_upper: u32, mmap_entries: Vec<MemoryMapEntry>) -> (r:
        Info)
        ensures
            r.spec_flags() == flags,
            r.spec_mem_lower() == mem_lower,
            r.spec_mem_upper() == mem_upper,
            r.spec_mmap_entries() == mmap_entries@,
    {
        Info { flags, mem_lower, mem_upper, mmap_entries }
    }

    /// Whether the basic lower/upper memory sizes are present.
    pub fn is_memory_size_available(&self) -> (r: bool)
        ensures
            r == (self.spec_flags() & INFO_MEMORY == INFO_MEMORY),
    {
        (self.flags & INFO_MEMORY) == INFO_MEMORY
    }

    /// Whether a full memory map is present.
    pub fn is_memory_map_available(&self) -> (r: bool)
        ensures
            r == (self.spec_flags() & INFO_MEM_MAP == INFO_MEM_MAP),
    {
        (self.flags & INFO_MEM_MAP) == INFO_MEM_MAP
    }

    /// Lower memory size in bytes.
    pub fn get_lower_memory(&self) -> (r: u64)
        ensures
            r == self.spec_mem_lower() * 1024,
    {
        (self.mem_lower as u64) * 1024
    }

    /// Upper memory size in bytes.
    pub fn get_upper_memory(&self) -> (r: u64)
        ensures
            r == self.spec_mem_upper() * 1024,
    {
        (self.mem_upper as u64) * 1024
    }
}

impl PhysicalMemoryMap for Info {
    /// The map is usable only when the boot loader set its flag.
    open spec fn map_available(&self) -> bool {
        self.spec_flags() & INFO_MEM_MAP == INFO_MEM_MAP
    }

    /// The regions of the entries marked available, in buffer order.
    open spec fn regions(&self) -> Seq<MemoryRegion> {
        spec_available_regions(self.spec_mmap_entries())
    }

    fn available_memory_regions(&self) -> (r: Vec<MemoryRegion>) {
        let mut result: Vec<MemoryRegion> = Vec::new();
        let mut i: usize = 0;
        while i < self.mmap_entries.len()
            invariant
                i <= self.mmap_entries@.len(),
                result@ == spec_available_regions(self.mmap_entries@.take(i as int)),
            decreases self.mmap_entries@.len() - i,
        {
            let entry = &self.mmap_entries[i];
            if entry.mem_type == MEMORY_AVAILABLE {
                result.push(
                    MemoryRegion { addr: entry.addr as usize, size: entry.len as usize },
                );
            }
            proof {
                assert(self.mmap_entries@.take(i as int + 1).drop_last() =~= self.mmap_entries@.take(
                    i as int,
                ));
                assert(self.mmap_entries@.take(i as int + 1).last() == self.mmap_entries@[i as int]);
            }
            i = i + 1;
        }
        proof {
            assert(self.mmap_entries@.take(self.mmap_entries@.len() as int) =~= self.mmap_entries@);
        }
        result
    }
}

/// Hands out the regions of a memory map one at a time, in order.
pub struct MemoryRegionIterator {
    regions: Vec<MemoryRegion>,
    index: usize,
}

impl MemoryRegionIterator {
    /// The regions this iterator walks.
    pub closed spec fn spec_regions(self) -> Seq<MemoryRegion> {
        self.regions@
    }

    /// How many regions were already handed out.
    pub closed spec fn spec_index(self) -> int {
        self.index as int
    }

    /// Starts walking the given regions from the first.
    pub fn new(regions: Vec<MemoryRegion>) -> (r: MemoryRegionIterator)
        ensures
            r.spec_regions() == regions@,
            r.spec_index() == 0,
    {
        MemoryRegionIterator { regions, index: 0 }
    }

    /// Yields the next region, or nothing once all were handed out.
    pub fn next(&mut self) -> (r: Option<MemoryRegion>)
        ensures
            final(self).spec_regions() == old(self).spec_regions(),
            if old(self).spec_index() < old(self).spec_regions().len() {
                &&& r == Some(old(self).spec_regions()[old(self).spec_index()])
                &&& final(self).spec_index() == old(self).spec_index() + 1
            } else {
                &&& r is None
                &&& final(self).spec_index() == old(self).spec_index()
            },
    {
        if self.index < self.regions.len() {
            let region = self.regions[self.index];
            self.index = self.index + 1;
            Some(region)
        } else {
            None
        }
    }
}

} // verus!
