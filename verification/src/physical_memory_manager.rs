//! Managing pages of physical memory: the process-wide manager with its
//! `Uninitialized -> Initialized` lifecycle. Until `init` runs, no allocator
//! exists and any allocation request is a fatal usage error, which the
//! contracts rule out. The caller serializes access (one shared instance
//! behind a non-reentrant mutual-exclusion lock).

use crate::counting::count_false;
use crate::layout::KernelLayout;
use crate::memory::PAGE_SIZE;
use crate::multiboot::PhysicalMemoryMap;
use crate::phys_mem_allocator::{
    init_requires, page_index, spec_initially_occupied, spec_universe_pages, PhysMemAllocator,
};
use vstd::prelude::*;

verus! {

pub struct PhysicalMemoryManager {
    /* Nothing is kept here until the manager is initialized. */
    allocator: Option<PhysMemAllocator>,
}

impl PhysicalMemoryManager {
    /// Whether `init` has run.
    pub closed spec fn spec_initialized(self) -> bool {
        self.allocator is Some
    }

    /// One boolean per page frame: `true` means occupied. Empty until `init`.
    pub closed spec fn bits(self) -> Seq<bool> {
        match self.allocator {
            Some(a) => a.bits(),
            None => Seq::empty(),
        }
    }

    /// Total page frames under control; zero until `init`.
    pub closed spec fn spec_total_pages(self) -> int {
        match self.allocator {
            Some(a) => a.spec_total_pages(),
            None => 0,
        }
    }

    /// Free page frames left; zero until `init`.
    pub closed spec fn spec_free_pages(self) -> int {
        match self.allocator {
            Some(a) => a.spec_free_pages(),
            None => 0,
        }
    }

    /// The manager's invariant: once initialized, the allocator's own
    /// invariant holds.
    pub closed spec fn wf(self) -> bool {
        match self.allocator {
            Some(a) => a.wf(),
            None => true,
        }
    }

    /// What `wf` guarantees of the counters: the free counter counts exactly
    /// the unset bits, over a bitmap spanning the whole universe.
    pub proof fn lemma_wf_counts(self)
        requires
            self.wf(),
        ensures
            self.spec_free_pages() == count_false(self.bits()),
            self.bits().len() == self.spec_total_pages(),
            0 <= self.spec_free_pages() <= self.spec_total_pages(),
            self.spec_total_pages() * (PAGE_SIZE as int) <= usize::MAX,
    {
        if self.allocator is None {
            assert(self.bits() =~= Seq::<bool>::empty());
        }
        crate::counting::lemma_count_true_bounds(self.bits());
    }

    /// The manager as it exists before the boot sequence runs: uninitialized,
    /// with nothing under control.
    pub fn new() -> (r: PhysicalMemoryManager)
        ensures
            r.wf(),
            !r.spec_initialized(),
            r.spec_total_pages() == 0,
            r.spec_free_pages() == 0,
    {
        PhysicalMemoryManager { allocator: None }
    }

    /// Consumes the boot memory map once and seeds the allocator: sizes the
    /// page universe, places and clears the bitmap, marks everything
    /// occupied, re-marks available regions free, then reserves the kernel
    /// image and the bitmap storage.
    pub fn init<M: PhysicalMemoryMap>(&mut self, mem_map: &M, layout: &KernelLayout)
        requires
            mem_map.map_available(),
            init_requires(mem_map.regions(), *layout),
        ensures
            final(self).wf(),
            final(self).spec_initialized(),
            final(self).spec_total_pages() == spec_universe_pages(mem_map.regions()),
            forall|p: int|
                0 <= p < final(self).spec_total_pages() ==> final(self).bits()[p]
                    == spec_initially_occupied(mem_map.regions(), *layout, p),
    {
        self.allocator = Some(PhysMemAllocator::init(mem_map, layout));
    }

    /// Total amount of physical pages under control.
    pub fn total_pages_count(&self) -> (r: u64)
        ensures
            r == self.spec_total_pages(),
    {
        match &self.allocator {
            Some(a) => a.total_pages_count(),
            None => 0,
        }
    }

    /// Amount of pages currently free.
    pub fn free_pages_count(&self) -> (r: u64)
        ensures
            r == self.spec_free_pages(),
    {
        match &self.allocator {
            Some(a) => a.free_pages_count(),
            None => 0,
        }
    }

    /// Serves one page: the lowest free page frame, marked occupied, as a
    /// physical address. Returns nothing exactly when no page is free — an
    /// out-of-memory condition the caller must handle, not a fault.
    pub fn alloc_page(&mut self) -> (r: Option<usize>)
        requires
            old(self).wf(),
            old(self).spec_initialized(),
        ensures
            final(self).wf(),
            final(self).spec_initialized(),
            final(self).spec_total_pages() == old(self).spec_total_pages(),
            match r {
                Some(page_addr) => {
                    &&& old(self).spec_free_pages() > 0
                    &&& page_addr as int % (PAGE_SIZE as int) == 0
                    &&& page_index(page_addr as int) < old(self).spec_total_pages()
                    &&& !old(self).bits()[page_index(page_addr as int)]
                    &&& forall|j: int| 0 <= j < page_index(page_addr as int) ==> old(self).bits()[j]
                    &&& final(self).bits() == old(self).bits().update(
                        page_index(page_addr as int),
                        true,
                    )
                    &&& final(self).spec_free_pages() == old(self).spec_free_pages() - 1
                },
                None => {
                    &&& old(self).spec_free_pages() == 0
                    &&& final(self).bits() == old(self).bits()
                    &&& final(self).spec_free_pages() == old(self).spec_free_pages()
                },
            },
    {
        let mut allocator = self.allocator.take();
        let r = match &mut allocator {
            Some(a) => a.alloc_page(),
            None => None,
        };
        self.allocator = allocator;
        r
    }

    /// Releases the page containing `addr`. The page must be one the manager
    /// handed out and still holds: freeing an already-free page means the
    /// bookkeeping diverged, and is excluded.
    pub fn free_page(&mut self, addr: usize)
        requires
            old(self).wf(),
            old(self).spec_initialized(),
            page_index(addr as int) < old(self).spec_total_pages(),
            old(self).bits()[page_index(addr as int)],
        ensures
            final(self).wf(),
            final(self).spec_initialized(),
            final(self).spec_total_pages() == old(self).spec_total_pages(),
            final(self).bits() == old(self).bits().update(page_index(addr as int), false),
            final(self).spec_free_pages() == old(self).spec_free_pages() + 1,
    {
        let mut allocator = self.allocator.take();
        match &mut allocator {
            Some(a) => a.free_page(addr),
            None => (),
        }
        self.allocator = allocator;
    }
}

} // verus!
