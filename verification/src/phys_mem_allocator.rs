//! The page-frame allocator: one bitmap over the whole physical-page
//! universe, a page counter pair, and page-granular mark operations that
//! keep "exactly one of free/occupied" per page.

use crate::bitmap::Bitmap;
use crate::counting::{
    count_false, lemma_count_false_zero_iff_full, lemma_count_true_bounds,
    lemma_count_true_constant, lemma_count_true_split, lemma_count_true_update,
    lemma_count_true_whole,
};
use crate::layout::KernelLayout;
use crate::memory::{self, MemoryRegion, PAGE_SIZE};
use crate::multiboot::PhysicalMemoryMap;
use vstd::prelude::*;

verus! {

/// Index of the page frame that contains byte address `addr`.
pub open spec fn page_index(addr: int) -> int {
    addr / (PAGE_SIZE as int)
}

/// Index of the first page frame that overlaps the region.
pub open spec fn first_page(r: MemoryRegion) -> int {
    page_index(r.addr as int)
}

/// Index of the last page frame that overlaps the region (`size >= 1`).
pub open spec fn last_page(r: MemoryRegion) -> int {
    page_index(r.addr + r.size - 1)
}

/// Whether page frame `p` overlaps the region.
pub open spec fn region_covers_page(r: MemoryRegion, p: int) -> bool {
    first_page(r) <= p <= last_page(r)
}

/// Whether page frame `p` overlaps some region of the sequence.
pub open spec fn page_available(regions: Seq<MemoryRegion>, p: int) -> bool {
    exists|i: int|
        0 <= i < regions.len() && region_covers_page(#[trigger] regions[i], p)
}

/// The boundary contract on a boot memory map: every region is non-empty and
/// fits the address space, and the regions come in ascending address order,
/// not even sharing a page frame.
pub open spec fn regions_wf(regions: Seq<MemoryRegion>) -> bool {
    &&& forall|i: int|
        0 <= i < regions.len() ==> (#[trigger] regions[i]).size >= 1 && regions[i].addr
            + regions[i].size <= usize::MAX
    &&& forall|i: int|
        0 <= i < regions.len() - 1 ==> last_page(#[trigger] regions[i]) < first_page(
            regions[i + 1],
        )
}

/// Number of page frames in the universe `[0, end_of_last_region + 1)`.
pub open spec fn spec_universe_pages(regions: Seq<MemoryRegion>) -> int {
    (regions.last().addr + regions.last().size) / (PAGE_SIZE as int)
}

/// Bytes needed to store one bit per page frame.
pub open spec fn spec_bitmap_bytes(total_pages: int) -> int {
    if (total_pages / 8) * 8 < total_pages {
        total_pages / 8 + 1
    } else {
        total_pages / 8
    }
}

/// Where the bitmap's backing storage is placed: immediately after the kernel
/// image, rounded up to a page boundary.
pub open spec fn spec_bitmap_region(layout: KernelLayout, total_pages: int) -> MemoryRegion {
    MemoryRegion {
        addr: memory::spec_next_page_addr(
            layout.spec_end_phys_addr() - 1,
            PAGE_SIZE as int,
        ) as usize,
        size: spec_bitmap_bytes(total_pages) as usize,
    }
}

/// Everything `init` assumes of the boot memory map and the kernel layout:
/// the map is non-empty, well-formed, and ends on a page boundary; the kernel
/// image and the bitmap storage placed after it lie in available memory,
/// inside the page universe.
pub open spec fn init_requires(regions: Seq<MemoryRegion>, layout: KernelLayout) -> bool {
    let total = spec_universe_pages(regions);
    let kr = layout.spec_physical_kernel_placement();
    let br = spec_bitmap_region(layout, total);
    &&& regions.len() > 0
    &&& regions_wf(regions)
    &&& (regions.last().addr + regions.last().size) % (PAGE_SIZE as int) == 0
    &&& layout.wf()
    &&& layout.spec_end_phys_addr() + PAGE_SIZE <= usize::MAX
    &&& last_page(kr) < total
    &&& forall|p: int| #[trigger] region_covers_page(kr, p) ==> page_available(regions, p)
    &&& last_page(br) < total
    &&& forall|p: int| #[trigger] region_covers_page(br, p) ==> page_available(regions, p)
}

/// A page frame's state right after `init`: occupied exactly when it lies
/// outside every available region, or under the kernel image, or under the
/// bitmap's own storage.
pub open spec fn spec_initially_occupied(
    regions: Seq<MemoryRegion>,
    layout: KernelLayout,
    p: int,
) -> bool {
    ||| !page_available(regions, p)
    ||| region_covers_page(layout.spec_physical_kernel_placement(), p)
    ||| region_covers_page(spec_bitmap_region(layout, spec_universe_pages(regions)), p)
}

pub struct PhysMemAllocator {
    bitmap: Bitmap,
    total_pages_count: u64,
    free_pages_count: u64,
}

impl PhysMemAllocator {
    /// One boolean per page frame: `true` means occupied.
    pub closed spec fn bits(self) -> Seq<bool> {
        self.bitmap@
    }

    /// Total page frames under control.
    pub closed spec fn spec_total_pages(self) -> int {
        self.total_pages_count as int
    }

    /// Free page frames left.
    pub closed spec fn spec_free_pages(self) -> int {
        self.free_pages_count as int
    }

    /// The bitmap's own storage invariant holds.
    pub closed spec fn storage_ok(self) -> bool {
        self.bitmap.wf()
    }

    /// The allocator's invariant: the bitmap spans exactly the universe, the
    /// free counter equals the number of unset bits, and page-address
    /// arithmetic stays within `usize`.
    pub open spec fn wf(self) -> bool {
        &&& self.storage_ok()
        &&& self.bits().len() == self.spec_total_pages()
        &&& self.spec_free_pages() == count_false(self.bits())
        &&& self.spec_total_pages() * (PAGE_SIZE as int) <= usize::MAX
    }

    /// Total amount of physical pages under control.
    pub fn total_pages_count(&self) -> (r: u64)
        ensures
            r == self.spec_total_pages(),
    {
        self.total_pages_count
    }

    /// Amount of pages currently free.
    pub fn free_pages_count(&self) -> (r: u64)
        ensures
            r == self.spec_free_pages(),
    {
        self.free_pages_count
    }

    /// Flips the state of the single page at `addr` (which must be
    /// page-aligned) to `occupied`. The page must currently be in the
    /// opposite state: occupying an occupied page or freeing a free one means
    /// the bookkeeping has diverged from reality, and is excluded.
    fn mark_page(&mut self, addr: usize, occupied: bool)
        requires
            old(self).wf(),
            addr as int % (PAGE_SIZE as int) == 0,
            page_index(addr as int) < old(self).spec_total_pages(),
            old(self).bits()[page_index(addr as int)] == !occupied,
        ensures
            final(self).wf(),
            final(self).spec_total_pages() == old(self).spec_total_pages(),
            final(self).bits() == old(self).bits().update(page_index(addr as int), occupied),
            final(self).spec_free_pages() == old(self).spec_free_pages() + if occupied {
                -1int
            } else {
                1int
            },
    {
        let bit = addr / PAGE_SIZE;
        proof {
            lemma_count_true_bounds(self.bits());
            lemma_count_false_zero_iff_full(self.bits());
            lemma_count_true_update(self.bits(), bit as int, occupied);
            if !occupied {
                lemma_count_all_true_bound(self.bits(), bit as int);
            }
        }
        if occupied {
            self.bitmap.set_bit(bit);
            self.free_pages_count = self.free_pages_count - 1;
        } else {
            self.bitmap.clear_bit(bit);
            self.free_pages_count = self.free_pages_count + 1;
        }
    }

    /// Flips every page overlapping `[addr, addr + length)` to `occupied`.
    /// Every one of those pages must currently be in the opposite state.
    fn mark_region(&mut self, addr: usize, length: usize, occupied: bool)
        requires
            old(self).wf(),
            length >= 1,
            addr + length <= usize::MAX,
            page_index(addr + length - 1) < old(self).spec_total_pages(),
            forall|p: int|
                page_index(addr as int) <= p <= page_index(addr + length - 1) ==> old(
                    self,
                ).bits()[p] == !occupied,
        ensures
            final(self).wf(),
            final(self).spec_total_pages() == old(self).spec_total_pages(),
            final(self).bits().len() == old(self).bits().len(),
            forall|p: int|
                0 <= p < final(self).bits().len() ==> final(self).bits()[p] == if page_index(
                    addr as int,
                ) <= p <= page_index(addr + length - 1) {
                    occupied
                } else {
                    old(self).bits()[p]
                },
            final(self).spec_free_pages() == if occupied {
                old(self).spec_free_pages() - (page_index(addr + length - 1) - page_index(
                    addr as int,
                ) + 1)
            } else {
                old(self).spec_free_pages() + (page_index(addr + length - 1) - page_index(
                    addr as int,
                ) + 1)
            },
    {
        let ghost firstp = page_index(addr as int);
        let ghost lastp = page_index(addr + length - 1);
        let mut page = memory::page_addr(addr, PAGE_SIZE);
        proof {
            memory::lemma_page_addr_monotonic(addr as int, addr + length - 1, PAGE_SIZE as int);
            lemma_page_index_mul(firstp);
            lemma_page_index_mul(lastp);
            assert(firstp <= lastp);
        }
        while page < addr + length
            invariant
                self.wf(),
                self.spec_total_pages() == old(self).spec_total_pages(),
                self.bits().len() == old(self).bits().len(),
                length >= 1,
                addr + length <= usize::MAX,
                firstp == page_index(addr as int),
                lastp == page_index(addr + length - 1),
                firstp <= lastp < self.spec_total_pages(),
                page as int % (PAGE_SIZE as int) == 0,
                firstp * (PAGE_SIZE as int) <= page <= (lastp + 1) * (PAGE_SIZE as int),
                forall|p: int|
                    0 <= p < self.bits().len() ==> self.bits()[p] == if firstp <= p < page_index(
                        page as int,
                    ) {
                        occupied
                    } else {
                        old(self).bits()[p]
                    },
                forall|p: int| firstp <= p <= lastp ==> old(self).bits()[p] == !occupied,
                self.spec_free_pages() == if occupied {
                    old(self).spec_free_pages() - (page_index(page as int) - firstp)
                } else {
                    old(self).spec_free_pages() + (page_index(page as int) - firstp)
                },
            decreases (lastp + 1) * (PAGE_SIZE as int) - page,
        {
            proof {
                lemma_page_step(page as int, firstp, lastp, addr as int, length as int);
            }
            self.mark_page(page, occupied);
            page = page + PAGE_SIZE;
            proof {
                lemma_page_index_succ(page as int);
            }
        }
        proof {
            lemma_page_exit(page as int, firstp, lastp, addr as int, length as int);
        }
    }

    /// Builds the allocator from the boot memory map: sizes the page universe
    /// from the last (highest) available region, places the bitmap right
    /// after the kernel image, marks everything occupied, re-marks the
    /// available regions free, and finally reserves the kernel image and the
    /// bitmap's own storage.
    pub fn init<M: PhysicalMemoryMap>(mem_map: &M, layout: &KernelLayout) -> (r: PhysMemAllocator)
        requires
            mem_map.map_available(),
            init_requires(mem_map.regions(), *layout),
        ensures
            r.wf(),
            r.spec_total_pages() == spec_universe_pages(mem_map.regions()),
            forall|p: int|
                0 <= p < r.spec_total_pages() ==> r.bits()[p] == spec_initially_occupied(
                    mem_map.regions(),
                    *layout,
                    p,
                ),
    {
        let ghost regions_spec = mem_map.regions();
        let ghost total_g = spec_universe_pages(regions_spec);
        let ghost kr = layout.spec_physical_kernel_placement();
        let ghost br = spec_bitmap_region(*layout, total_g);

        /* Find the end of the available physical memory: the end address of
         * the last available memory region. The allocator controls the range
         * `[0, end_address]`; reserved holes inside it simply stay marked as
         * occupied. */
        let regions = mem_map.available_memory_regions();
        let last_avail_region = regions[regions.len() - 1];
        let universe_end = last_avail_region.end_addr();

        /* Total amount of physical pages to control. */
        let total_phys_pages = (universe_end + 1) / PAGE_SIZE;
        proof {
            lemma_universe_arith(universe_end + 1, total_g);
        }

        /* Amount of bytes required to store the memory bitmap. */
        let mut bitmap_bytes = total_phys_pages / 8;
        if bitmap_bytes * 8 < total_phys_pages {
            bitmap_bytes = bitmap_bytes + 1;
        }

        /* The bitmap is placed immediately after the kernel, aligned on a
         * page boundary. The preconditions guarantee that usable memory
         * exists there. */
        let bitmap_region = layout.physical_kernel_placement().page_align(PAGE_SIZE).next_adjacent(
            bitmap_bytes,
        );
        proof {
            assert(bitmap_region.addr == br.addr && bitmap_region.size == br.size);
        }

        let mut word_count = total_phys_pages / 64;
        if word_count * 64 < total_phys_pages {
            word_count = word_count + 1;
        }
        proof {
            lemma_word_count_arith(total_phys_pages as int, word_count as int);
        }
        let storage: Vec<u64> = vec![0u64; word_count];
        let mut bitmap = Bitmap::new(storage, total_phys_pages);
        bitmap.clear();
        proof {
            lemma_count_true_constant(bitmap@, 0, bitmap@.len() as int, false);
            lemma_count_true_whole(bitmap@);
        }

        let mut allocator = PhysMemAllocator {
            bitmap,
            total_pages_count: total_phys_pages as u64,
            free_pages_count: total_phys_pages as u64,
        };

        /* Mark all memory as occupied. */
        allocator.mark_region(0, universe_end + 1, true);

        /* Mark all available regions from the memory map as free. */
        let mut i: usize = 0;
        while i < regions.len()
            invariant
                allocator.wf(),
                allocator.spec_total_pages() == total_g,
                allocator.bits().len() == total_g,
                regions@ == regions_spec,
                regions_spec.len() > 0,
                regions_wf(regions_spec),
                total_g == spec_universe_pages(regions_spec),
                (regions_spec.last().addr + regions_spec.last().size) % (PAGE_SIZE as int) == 0,
                i <= regions_spec.len(),
                forall|p: int|
                    0 <= p < total_g ==> allocator.bits()[p] == !page_available(
                        regions_spec.take(i as int),
                        p,
                    ),
            decreases regions_spec.len() - i,
        {
            let region = regions[i];
            proof {
                lemma_region_in_universe(regions_spec, i as int);
                assert forall|p: int|
                    page_index(region.addr as int) <= p <= page_index(
                        region.addr + region.size - 1,
                    ) implies allocator.bits()[p] by {
                    lemma_no_earlier_cover(regions_spec, i as int, p);
                }
            }
            allocator.mark_region(region.addr, region.size, false);
            proof {
                assert forall|p: int| 0 <= p < total_g implies allocator.bits()[p]
                    == !page_available(regions_spec.take(i as int + 1), p) by {
                    lemma_page_available_take_step(regions_spec, i as int, p);
                }
            }
            i = i + 1;
        }
        proof {
            assert(regions_spec.take(regions_spec.len() as int) =~= regions_spec);
        }

        /* Mark the kernel location as occupied. */
        proof {
            assert forall|p: int|
                page_index(kr.addr as int) <= p <= page_index(
                    kr.addr + kr.size - 1,
                ) implies !allocator.bits()[p] by {
                assert(region_covers_page(kr, p));
            }
        }
        allocator.mark_region(layout.kernel_begin_phys_addr(), layout.kernel_size(), true);

        /* Mark the bitmap's own storage as occupied. */
        proof {
            lemma_bitmap_after_kernel(*layout, total_g);
            assert forall|p: int|
                page_index(br.addr as int) <= p <= page_index(
                    br.addr + br.size - 1,
                ) implies !allocator.bits()[p] by {
                assert(region_covers_page(br, p));
            }
        }
        allocator.mark_region(bitmap_region.addr, bitmap_region.size, true);

        proof {
            assert forall|p: int| 0 <= p < total_g implies allocator.bits()[p]
                == spec_initially_occupied(regions_spec, *layout, p) by {
                assert(region_covers_page(kr, p) == (page_index(kr.addr as int) <= p <= page_index(
                    kr.addr + kr.size - 1,
                )));
                assert(region_covers_page(br, p) == (page_index(br.addr as int) <= p <= page_index(
                    br.addr + br.size - 1,
                )));
            }
        }

        allocator
    }

    /// Serves one page: finds the first free page frame in ascending order,
    /// marks it occupied, and returns its physical address. Returns nothing
    /// exactly when no page is free.
    pub fn alloc_page(&mut self) -> (r: Option<usize>)
        requires
            old(self).wf(),
        ensures
            final(self).wf(),
            final(self).spec_total_pages() == old(self).spec_total_pages(),
            match r {
                Some(page_addr) => {
                    &&& old(self).spec_free_pages() > 0
                    &&& page_addr as int % (PAGE_SIZE as int) == 0
                    &&& page_index(page_addr as int) < old(self).spec_total_pages()
                    &&& !old(self).bits()[page_index(page_addr as int)]
                    &&& forall|j: int| 0 <= j < page_index(page_addr as int) ==> old(self).bits()[j]
                    &&& final(self).bits() == old(self).bits().update(
                        page_index(page_addr as int),
                        true,
                    )
                    &&& final(self).spec_free_pages() == old(self).spec_free_pages() - 1
                },
                None => {
                    &&& old(self).spec_free_pages() == 0
                    &&& *final(self) == *old(self)
                },
            },
    {
        match self.bitmap.find_first_zero() {
            Some(bit) => {
                proof {
                    lemma_page_index_mul(bit as int);
                    assert(bit * (PAGE_SIZE as int) < self.spec_total_pages() * (
                    PAGE_SIZE as int)) by (nonlinear_arith)
                        requires
                            0 <= bit < self.spec_total_pages(),
                            PAGE_SIZE as int == 4096,
                    ;
                    lemma_count_false_zero_iff_full(self.bits());
                    lemma_count_true_bounds(self.bits());
                }
                let addr = bit * PAGE_SIZE;
                self.mark_page(addr, true);
                Some(addr)
            },
            None => {
                proof {
                    lemma_count_false_zero_iff_full(self.bits());
                }
                None
            },
        }
    }

    /// Releases the page containing `addr`: its frame must currently be
    /// occupied (freeing an already-free page is a caller bug, and excluded).
    pub fn free_page(&mut self, addr: usize)
        requires
            old(self).wf(),
            page_index(addr as int) < old(self).spec_total_pages(),
            old(self).bits()[page_index(addr as int)],
        ensures
            final(self).wf(),
            final(self).spec_total_pages() == old(self).spec_total_pages(),
            final(self).bits() == old(self).bits().update(page_index(addr as int), false),
            final(self).spec_free_pages() == old(self).spec_free_pages() + 1,
    {
        let page = memory::page_addr(addr, PAGE_SIZE);
        proof {
            lemma_same_page(addr as int, page as int);
        }
        self.mark_page(page, false);
    }
}


/// The universe's byte size is a positive multiple of the page size, so its
/// last byte lies on page `total - 1`.
proof fn lemma_universe_arith(universe_size: int, total: int)
    requires
        universe_size >= 1,
        universe_size % 4096 == 0,
        total == universe_size / 4096,
    ensures
        total >= 1,
        total * 4096 == universe_size,
        (universe_size - 1) / 4096 == total - 1,
    {
    assert(total >= 1 && total * 4096 == universe_size && (universe_size - 1) / 4096 == total - 1)
        by (nonlinear_arith)
        requires
            universe_size >= 1,
            universe_size % 4096 == 0,
            total == universe_size / 4096,
    ;
}

/// The chosen number of backing words is enough for one bit per page and not
/// wastefully past the address space.
proof fn lemma_word_count_arith(total: int, word_count: int)
    requires
        total >= 1,
        total * 4096 <= usize::MAX,
        word_count == if (total / 64) * 64 < total {
            total / 64 + 1
        } else {
            total / 64
        },
    ensures
        total <= word_count * 64,
        word_count * 64 <= usize::MAX,
    {
    assert(total <= word_count * 64 && word_count * 64 <= total + 64 && total + 64
        <= usize::MAX) by (nonlinear_arith)
        requires
            total >= 1,
            total * 4096 <= usize::MAX,
            usize::MAX >= 0xffff_ffff,
            word_count == if (total / 64) * 64 < total {
                total / 64 + 1
            } else {
                total / 64
            },
    ;
}

/// Regions listed earlier end on strictly earlier pages.
proof fn lemma_region_chain(regions: Seq<MemoryRegion>, i: int, j: int)
    requires
        regions_wf(regions),
        0 <= i < j < regions.len(),
    ensures
        last_page(regions[i]) < first_page(regions[j]),
        last_page(regions[i]) < last_page(regions[j]),
    decreases j - i,
{
    vstd::arithmetic::div_mod::lemma_div_is_ordered(
        regions[j].addr as int,
        regions[j].addr + regions[j].size - 1,
        4096,
    );
    if i + 1 < j {
        lemma_region_chain(regions, i + 1, j);
        vstd::arithmetic::div_mod::lemma_div_is_ordered(
            regions[i + 1].addr as int,
            regions[i + 1].addr + regions[i + 1].size - 1,
            4096,
        );
    }
}

/// Every region's pages lie below the universe bound.
proof fn lemma_region_in_universe(regions: Seq<MemoryRegion>, i: int)
    requires
        regions_wf(regions),
        regions.len() > 0,
        0 <= i < regions.len(),
        (regions.last().addr + regions.last().size) % 4096 == 0,
    ensures
        last_page(regions[i]) < spec_universe_pages(regions),
        first_page(regions[i]) <= last_page(regions[i]),
    {
    let total = spec_universe_pages(regions);
    let lastr = regions[regions.len() - 1];
    lemma_universe_arith(lastr.addr + lastr.size, total);
    vstd::arithmetic::div_mod::lemma_div_is_ordered(
        regions[i].addr as int,
        regions[i].addr + regions[i].size - 1,
        4096,
    );
    if i < regions.len() - 1 {
        lemma_region_chain(regions, i, regions.len() - 1);
    }
    vstd::arithmetic::div_mod::lemma_div_is_ordered(
        regions[i].addr + regions[i].size - 1,
        lastr.addr + lastr.size - 1,
        4096,
    );
}

/// A page of region `i` is covered by no region before `i`.
proof fn lemma_no_earlier_cover(regions: Seq<MemoryRegion>, i: int, p: int)
    requires
        regions_wf(regions),
        0 <= i < regions.len(),
        first_page(regions[i]) <= p,
    ensures
        !page_available(regions.take(i), p),
    {
    if page_available(regions.take(i), p) {
        let k = choose|k: int|
            0 <= k < regions.take(i).len() && region_covers_page(
                #[trigger] regions.take(i)[k],
                p,
            );
        lemma_region_chain(regions, k, i);
    }
}

/// Taking one more region extends the covered pages by exactly that region's.
proof fn lemma_page_available_take_step(regions: Seq<MemoryRegion>, i: int, p: int)
    requires
        0 <= i < regions.len(),
    ensures
        page_available(regions.take(i + 1), p) == (page_available(regions.take(i), p)
            || region_covers_page(regions[i], p)),
    {
    let pre = regions.take(i);
    let ext = regions.take(i + 1);
    if page_available(ext, p) {
        let k = choose|k: int| 0 <= k < ext.len() && region_covers_page(#[trigger] ext[k], p);
        if k < i {
            assert(pre[k] == ext[k]);
            assert(page_available(pre, p));
        } else {
            assert(ext[k] == regions[i]);
        }
    }
    if page_available(pre, p) {
        let k = choose|k: int| 0 <= k < pre.len() && region_covers_page(#[trigger] pre[k], p);
        assert(ext[k] == pre[k]);
        assert(page_available(ext, p));
    }
    if region_covers_page(regions[i], p) {
        assert(ext[i] == regions[i]);
        assert(page_available(ext, p));
    }
}

/// The bitmap's storage starts on the page right after the kernel's last.
proof fn lemma_bitmap_after_kernel(layout: KernelLayout, total: int)
    requires
        layout.wf(),
        layout.spec_end_phys_addr() + PAGE_SIZE <= usize::MAX,
    ensures
        first_page(spec_bitmap_region(layout, total)) == last_page(
            layout.spec_physical_kernel_placement(),
        ) + 1,
    {
    let kr = layout.spec_physical_kernel_placement();
    let kend = kr.addr + kr.size - 1;
    assert(((kend / 4096) * 4096 + 4096) / 4096 == kend / 4096 + 1 && (kend / 4096) * 4096
        <= kend) by (nonlinear_arith)
        requires
            kend >= 0,
    ;
}


/// Page accounting after `init`: when the boot map's available regions cover
/// the whole page universe, the free count plus the pages occupied by the
/// kernel image and by the bitmap's own storage is exactly the total count —
/// nothing else is held back.
pub proof fn lemma_init_page_accounting(
    a: PhysMemAllocator,
    regions: Seq<MemoryRegion>,
    layout: KernelLayout,
)
    requires
        a.wf(),
        init_requires(regions, layout),
        a.spec_total_pages() == spec_universe_pages(regions),
        forall|p: int|
            0 <= p < a.spec_total_pages() ==> a.bits()[p] == spec_initially_occupied(
                regions,
                layout,
                p,
            ),
        forall|p: int| 0 <= p < a.spec_total_pages() ==> page_available(regions, p),
    ensures
        a.spec_free_pages() + (last_page(layout.spec_physical_kernel_placement()) - first_page(
            layout.spec_physical_kernel_placement(),
        ) + 1) + (last_page(spec_bitmap_region(layout, spec_universe_pages(regions)))
            - first_page(spec_bitmap_region(layout, spec_universe_pages(regions))) + 1)
            == a.spec_total_pages(),
    {
    let total = a.spec_total_pages();
    let kr = layout.spec_physical_kernel_placement();
    let br = spec_bitmap_region(layout, total);
    let k1 = first_page(kr);
    let k2 = last_page(kr);
    let b1 = first_page(br);
    let b2 = last_page(br);
    let bits = a.bits();
    lemma_bitmap_after_kernel(layout, total);
    assert(b1 == k2 + 1);
    let lastr = regions[regions.len() - 1];
    lemma_universe_arith(lastr.addr + lastr.size, total);
    vstd::arithmetic::div_mod::lemma_div_is_ordered(kr.addr as int, kr.addr + kr.size - 1, 4096);
    vstd::arithmetic::div_mod::lemma_div_is_ordered(br.addr as int, br.addr + br.size - 1, 4096);
    assert(k1 >= 0) by (nonlinear_arith)
        requires
            k1 == (kr.addr as int) / 4096,
            kr.addr >= 0,
    ;
    assert(forall|p: int| 0 <= p < total ==> bits[p] == (k1 <= p <= k2 || b1 <= p <= b2));
    lemma_count_true_split(bits, 0, k1, total);
    lemma_count_true_split(bits, k1, b2 + 1, total);
    lemma_count_true_constant(bits, 0, k1, false);
    lemma_count_true_constant(bits, k1, b2 + 1, true);
    lemma_count_true_constant(bits, b2 + 1, total, false);
    lemma_count_true_whole(bits);
}

/// Exhaustion: the manager has no free page exactly when every page frame is
/// occupied; with `alloc_page`'s contract, allocation succeeds exactly
/// `free_pages_count()` times before the first failure, and keeps failing
/// until a page is freed.
pub proof fn lemma_exhaustion(a: PhysMemAllocator)
    requires
        a.wf(),
    ensures
        (a.spec_free_pages() == 0) <==> (forall|p: int|
            0 <= p < a.bits().len() ==> a.bits()[p]),
        a.spec_free_pages() >= 0,
    {
    lemma_count_false_zero_iff_full(a.bits());
    lemma_count_true_bounds(a.bits());
}

/// Round trip: a successful `alloc_page` followed by `free_page` on the
/// returned address restores the allocator to its pre-allocation state —
/// the bitmap contents and both counters are exactly as before.
pub proof fn lemma_alloc_free_round_trip(
    before: PhysMemAllocator,
    after_alloc: PhysMemAllocator,
    after_free: PhysMemAllocator,
    page_addr: usize,
)
    requires
        0 <= page_index(page_addr as int) < before.bits().len(),
        !before.bits()[page_index(page_addr as int)],
        after_alloc.bits() == before.bits().update(page_index(page_addr as int), true),
        after_alloc.spec_free_pages() == before.spec_free_pages() - 1,
        after_alloc.spec_total_pages() == before.spec_total_pages(),
        after_free.bits() == after_alloc.bits().update(page_index(page_addr as int), false),
        after_free.spec_free_pages() == after_alloc.spec_free_pages() + 1,
        after_free.spec_total_pages() == after_alloc.spec_total_pages(),
    ensures
        after_free.bits() == before.bits(),
        after_free.spec_free_pages() == before.spec_free_pages(),
        after_free.spec_total_pages() == before.spec_total_pages(),
    {
    assert(after_free.bits() =~= before.bits());
}

/// If some position is `true`, not every position is `false`: the `false`
/// count stays below the length.
proof fn lemma_count_all_true_bound(s: Seq<bool>, i: int)
    requires
        0 <= i < s.len(),
        s[i],
    ensures
        count_false(s) < s.len(),
    decreases s.len(),
{
    if i == s.len() - 1 {
        lemma_count_true_bounds(s.drop_last());
    } else {
        lemma_count_all_true_bound(s.drop_last(), i);
    }
}

/// Multiplying a page index by the page size lands on that page's address.
proof fn lemma_page_index_mul(p: int)
    requires
        p >= 0,
    ensures
        page_index(p * (PAGE_SIZE as int)) == p,
        (p * (PAGE_SIZE as int)) % (PAGE_SIZE as int) == 0,
{
    assert((p * 4096) / 4096 == p && (p * 4096) % 4096 == 0) by (nonlinear_arith)
        requires
            p >= 0,
    ;
}

/// A page-aligned address in `[addr, addr + length)` addresses a page between
/// the region's first and last page.
proof fn lemma_page_step(page: int, firstp: int, lastp: int, addr: int, length: int)
    requires
        length >= 1,
        0 <= addr,
        firstp == addr / 4096,
        lastp == (addr + length - 1) / 4096,
        page % 4096 == 0,
        firstp * 4096 <= page,
        page < addr + length,
    ensures
        firstp <= page / 4096 <= lastp,
        page / 4096 == page_index(page),
        page + 4096 <= (lastp + 1) * 4096,
    {
    assert(firstp <= page / 4096 && page / 4096 <= lastp && page + 4096 <= (lastp + 1) * 4096)
        by (nonlinear_arith)
        requires
            length >= 1,
            0 <= addr,
            firstp == addr / 4096,
            lastp == (addr + length - 1) / 4096,
            page % 4096 == 0,
            firstp * 4096 <= page,
            page < addr + length,
    ;
}

/// Stepping one page forward advances the page index by one.
proof fn lemma_page_index_succ(page: int)
    requires
        page >= 4096,
        page % 4096 == 0,
    ensures
        page_index(page) == page_index(page - 4096) + 1,
{
    assert(page / 4096 == (page - 4096) / 4096 + 1) by (nonlinear_arith)
        requires
            page >= 4096,
            page % 4096 == 0,
    ;
}

/// When the walk passes the end of the region, it has covered exactly the
/// pages up to the region's last page.
proof fn lemma_page_exit(page: int, firstp: int, lastp: int, addr: int, length: int)
    requires
        length >= 1,
        0 <= addr,
        firstp == addr / 4096,
        lastp == (addr + length - 1) / 4096,
        page % 4096 == 0,
        firstp * 4096 <= page <= (lastp + 1) * 4096,
        page >= addr + length,
    ensures
        page_index(page) == lastp + 1,
{
    assert(page / 4096 == lastp + 1) by (nonlinear_arith)
        requires
            length >= 1,
            0 <= addr,
            firstp == addr / 4096,
            lastp == (addr + length - 1) / 4096,
            page % 4096 == 0,
            firstp * 4096 <= page <= (lastp + 1) * 4096,
            page >= addr + length,
    ;
}

/// Rounding an address down to its page boundary keeps the page index.
proof fn lemma_same_page(addr: int, page: int)
    requires
        addr >= 0,
        page == (addr / 4096) * 4096,
    ensures
        page_index(page) == page_index(addr),
        page % 4096 == 0,
{
    assert(page / 4096 == addr / 4096 && page % 4096 == 0) by (nonlinear_arith)
        requires
            addr >= 0,
            page == (addr / 4096) * 4096,
    ;
}

} // verus!
