//! Basic memory-related definitions: page size, contiguous address regions,
//! and page-granular walks over a region.

use vstd::prelude::*;

verus! {

/// Allocation granularity of the whole system, in bytes.
pub const PAGE_SIZE: usize = 4096;

/// An arbitrary contiguous region of memory: a start address and a byte length.
#[derive(Clone, Copy, Debug, PartialEq, Eq, Structural)]
pub struct MemoryRegion {
    pub addr: usize,
    pub size: usize,
}

/// Largest multiple of `page_size` that is at most `addr`.
pub open spec fn spec_page_addr(addr: int, page_size: int) -> int {
    (addr / page_size) * page_size
}

/// Smallest multiple of `page_size` that is strictly greater than `addr`.
pub open spec fn spec_next_page_addr(addr: int, page_size: int) -> int {
    spec_page_addr(addr, page_size) + page_size
}

impl MemoryRegion {
    /// Address of the last byte in the region, as a mathematical value.
    pub open spec fn spec_end_addr(self) -> int {
        self.addr + self.size - 1
    }

    /// The region's addresses form the half-open interval `[addr, addr + size)`.
    pub open spec fn spec_contains(self, addr: int) -> bool {
        self.addr <= addr < self.addr + self.size
    }

    /// Whether `addr` lies inside the region.
    pub fn addr_in(&self, addr: usize) -> (r: bool)
        requires
            self.addr + self.size <= usize::MAX,
        ensures
            r == self.spec_contains(addr as int),
    {
        addr >= self.addr && addr < self.addr + self.size
    }

    /// Returns the address of the last byte in the region.
    pub fn end_addr(&self) -> (r: usize)
        requires
            self.size >= 1,
            self.addr + self.size <= usize::MAX + 1,
        ensures
            r == self.spec_end_addr(),
    {
        self.addr + (self.size - 1)
    }

    /// Returns the next address immediately after the end of the region.
    pub fn next_addr_after(&self) -> (r: usize)
        requires
            self.addr + self.size <= usize::MAX,
        ensures
            r == self.addr + self.size,
    {
        self.addr + self.size
    }

    /// Returns the region of the specified size that immediately follows this one.
    pub fn next_adjacent(&self, size: usize) -> (r: MemoryRegion)
        requires
            self.addr + self.size <= usize::MAX,
        ensures
            r.addr == self.addr + self.size,
            r.size == size,
    {
        MemoryRegion { addr: self.addr + self.size, size: size }
    }

    /// Returns the minimal region that contains this one and whose start
    /// address and end address + 1 are both multiples of `page_size`.
    pub fn page_align(&self, page_size: usize) -> (r: MemoryRegion)
        requires
            page_size >= 1,
            self.size >= 1,
            self.addr + self.size - 1 <= usize::MAX - page_size,
        ensures
            r.addr == spec_page_addr(self.addr as int, page_size as int),
            r.addr + r.size == spec_next_page_addr(self.spec_end_addr(), page_size as int),
            r.addr as int % (page_size as int) == 0,
            (r.addr + r.size) % (page_size as int) == 0,
            r.addr <= self.addr,
            self.spec_end_addr() < r.addr + r.size,
    {
        let start_addr = page_addr(self.addr, page_size);
        let end = self.addr + self.size - 1;
        let next = next_page_addr(end, page_size);
        proof {
            lemma_page_addr_basics(self.addr as int, page_size as int);
            lemma_page_addr_basics(end as int, page_size as int);
            assert(spec_page_addr(self.addr as int, page_size as int)
                <= spec_page_addr(end as int, page_size as int)) by {
                lemma_page_addr_monotonic(self.addr as int, end as int, page_size as int);
            }
        }
        MemoryRegion { addr: start_addr, size: next - start_addr }
    }

    /// Returns an iterator over all the pages that lie fully inside the region.
    pub fn pages_iter(&self, page_size: usize) -> (r: MemoryPageIterator)
        requires
            page_size >= 1,
            self.addr + self.size + page_size <= usize::MAX,
        ensures
            r.wf(),
            r.region() == *self,
            r.page_size() == page_size,
            r.current_page() % (page_size as int) == 0,
            self.addr <= r.current_page() < self.addr + page_size,
    {
        MemoryPageIterator::new(*self, page_size)
    }
}

/// Returns the address of the page which the specified address belongs to.
pub fn page_addr(addr: usize, page_size: usize) -> (r: usize)
    requires
        page_size >= 1,
    ensures
        r == spec_page_addr(addr as int, page_size as int),
        r as int % (page_size as int) == 0,
        r <= addr < r + page_size,
{
    proof {
        lemma_page_addr_basics(addr as int, page_size as int);
    }
    (addr / page_size) * page_size
}

/// Returns the address of the page that follows the page which the specified
/// address belongs to.
pub fn next_page_addr(addr: usize, page_size: usize) -> (r: usize)
    requires
        page_size >= 1,
        addr + page_size <= usize::MAX,
    ensures
        r == spec_next_page_addr(addr as int, page_size as int),
        r as int % (page_size as int) == 0,
        addr < r <= addr + page_size,
{
    proof {
        lemma_page_addr_basics(addr as int, page_size as int);
    }
    page_addr(addr, page_size) + page_size
}

/// The page-rounding of an address sits at most one page below it, is a
/// multiple of the page size, and rounding once more changes nothing.
pub proof fn lemma_page_addr_basics(addr: int, page_size: int)
    requires
        page_size >= 1,
        addr >= 0,
    ensures
        spec_page_addr(addr, page_size) % page_size == 0,
        (spec_page_addr(addr, page_size) + page_size) % page_size == 0,
        spec_page_addr(addr, page_size) <= addr < spec_page_addr(addr, page_size) + page_size,
{
    let q = addr / page_size;
    vstd::arithmetic::div_mod::lemma_fundamental_div_mod(addr, page_size);
    vstd::arithmetic::div_mod::lemma_mod_division_less_than_divisor(addr, page_size);
    assert(q * page_size % page_size == 0) by {
        vstd::arithmetic::div_mod::lemma_mod_multiples_basic(q, page_size);
        assert(q * page_size == page_size * q) by (nonlinear_arith);
    }
    assert((q * page_size + page_size) % page_size == 0) by {
        vstd::arithmetic::div_mod::lemma_mod_multiples_basic(q + 1, page_size);
        assert((q + 1) * page_size == page_size * (q + 1)) by (nonlinear_arith);
        assert(q * page_size + page_size == (q + 1) * page_size) by (nonlinear_arith);
    }
    assert(page_size * q == q * page_size) by (nonlinear_arith);
}

/// Rounding down to a page boundary is monotonic.
pub proof fn lemma_page_addr_monotonic(a: int, b: int, page_size: int)
    requires
        page_size >= 1,
        0 <= a <= b,
    ensures
        spec_page_addr(a, page_size) <= spec_page_addr(b, page_size),
{
    vstd::arithmetic::div_mod::lemma_div_is_ordered(a, b, page_size);
    assert((a / page_size) * page_size <= (b / page_size) * page_size) by (nonlinear_arith)
        requires
            page_size >= 1,
            a / page_size <= b / page_size,
    ;
}

/// Walks all the pages that lie fully inside a region, in ascending order.
pub struct MemoryPageIterator {
    region: MemoryRegion,
    page_size: usize,
    current_page: usize,
}

impl MemoryPageIterator {
    /// Region whose pages are walked.
    pub closed spec fn region(self) -> MemoryRegion {
        self.region
    }

    /// Size of the pages yielded.
    pub closed spec fn page_size(self) -> int {
        self.page_size as int
    }

    /// Next page boundary to be considered.
    pub closed spec fn current_page(self) -> int {
        self.current_page as int
    }

    /// The iterator stays on page boundaries and never runs past the point
    /// where the arithmetic below could overflow.
    pub closed spec fn wf(self) -> bool {
        &&& self.page_size >= 1
        &&& self.current_page as int % self.page_size as int == 0
        &&& self.region.addr + self.region.size + self.page_size <= usize::MAX
        &&& self.current_page < self.region.addr + self.region.size + self.page_size
    }

    /// Positions the walk on the first page boundary at or after the start of
    /// the region.
    pub fn new(region: MemoryRegion, page_size: usize) -> (r: MemoryPageIterator)
        requires
            page_size >= 1,
            region.addr + region.size + page_size <= usize::MAX,
        ensures
            r.wf(),
            r.region() == region,
            r.page_size() == page_size,
            r.current_page() % (page_size as int) == 0,
            region.addr <= r.current_page() < region.addr + page_size,
    {
        let mut current_page = page_addr(region.addr, page_size);
        if current_page < region.addr {
            current_page += page_size;
        }
        proof {
            lemma_page_addr_basics(region.addr as int, page_size as int);
        }

        MemoryPageIterator { region, page_size, current_page }
    }

    /// Yields the next page that fits fully inside the region, or nothing once
    /// the region is exhausted.
    pub fn next(&mut self) -> (r: Option<MemoryRegion>)
        requires
            old(self).wf(),
        ensures
            final(self).wf(),
            final(self).region() == old(self).region(),
            final(self).page_size() == old(self).page_size(),
            if old(self).current_page() + old(self).page_size()
                <= old(self).region().addr + old(self).region().size {
                &&& r == Some(MemoryRegion {
                    addr: old(self).current_page() as usize,
                    size: old(self).page_size() as usize,
                })
                &&& final(self).current_page() == old(self).current_page() + old(self).page_size()
            } else {
                &&& r is None
                &&& final(self).current_page() == old(self).current_page()
            },
    {
        let current_page = self.current_page;
        let after_region = self.region.addr + self.region.size;
        if self.page_size <= after_region && current_page <= after_region - self.page_size {
            self.current_page += self.page_size;
            proof {
                vstd::arithmetic::div_mod::lemma_mod_add_multiples_vanish(
                    current_page as int,
                    self.page_size as int,
                );
            }
            Some(MemoryRegion { addr: current_page, size: self.page_size })
        } else {
            None
        }
    }
}

} // verus!
