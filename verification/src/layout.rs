//! Kernel placement in memory. The linker decides where the image lives; the
//! resulting begin/end virtual addresses and the virtual base are platform
//! inputs, carried here as a plain value so the address arithmetic on them
//! can be reasoned about.

use crate::memory::MemoryRegion;
use vstd::prelude::*;

verus! {

/// The kernel image's placement: the virtual base the image is linked at and
/// the image's begin/end virtual addresses, as the linker reports them.
pub struct KernelLayout {
    /// Start of the virtual window the kernel is mapped into; physical
    /// address 0 corresponds to this virtual address.
    pub virtual_base: usize,
    /// First virtual address of the kernel image.
    pub begin_vaddr: usize,
    /// First virtual address past the kernel image.
    pub end_vaddr: usize,
}

impl KernelLayout {
    /// The image lies above the virtual base and is non-empty.
    pub open spec fn wf(self) -> bool {
        &&& self.virtual_base <= self.begin_vaddr
        &&& self.begin_vaddr < self.end_vaddr
    }

    /// First physical address of the kernel image.
    pub open spec fn spec_begin_phys_addr(self) -> int {
        self.begin_vaddr - self.virtual_base
    }

    /// First physical address past the kernel image.
    pub open spec fn spec_end_phys_addr(self) -> int {
        self.end_vaddr - self.virtual_base
    }

    /// Byte size of the kernel image.
    pub open spec fn spec_kernel_size(self) -> int {
        self.end_vaddr - self.begin_vaddr
    }

    /// Region containing the entire kernel in physical memory.
    pub open spec fn spec_physical_kernel_placement(self) -> MemoryRegion {
        MemoryRegion {
            addr: self.spec_begin_phys_addr() as usize,
            size: self.spec_kernel_size() as usize,
        }
    }

    /// First virtual address of the kernel image.
    pub fn kernel_begin_vaddr(&self) -> (r: usize)
        ensures
            r == self.begin_vaddr,
    {
        self.begin_vaddr
    }

    /// First virtual address past the kernel image.
    pub fn kernel_end_vaddr(&self) -> (r: usize)
        ensures
            r == self.end_vaddr,
    {
        self.end_vaddr
    }

    /// First physical address of the kernel image.
    pub fn kernel_begin_phys_addr(&self) -> (r: usize)
        requires
            self.wf(),
        ensures
            r == self.spec_begin_phys_addr(),
    {
        self.begin_vaddr - self.virtual_base
    }

    /// First physical address past the kernel image.
    pub fn kernel_end_phys_addr(&self) -> (r: usize)
        requires
            self.wf(),
        ensures
            r == self.spec_end_phys_addr(),
    {
        self.end_vaddr - self.virtual_base
    }

    /// Byte size of the kernel image.
    pub fn kernel_size(&self) -> (r: usize)
        requires
            self.wf(),
        ensures
            r == self.spec_kernel_size(),
    {
        self.end_vaddr - self.begin_vaddr
    }

    /// Returns the region containing the entire kernel in physical memory.
    pub fn physical_kernel_placement(&self) -> (r: MemoryRegion)
        requires
            self.wf(),
        ensures
            r == self.spec_physical_kernel_placement(),
            r.addr == self.spec_begin_phys_addr(),
            r.size == self.spec_kernel_size(),
    {
        MemoryRegion { addr: self.kernel_begin_phys_addr(), size: self.kernel_size() }
    }

    /// Returns the region containing the entire kernel in virtual memory.
    pub fn virtual_kernel_placement(&self) -> (r: MemoryRegion)
        requires
            self.wf(),
        ensures
            r.addr == self.begin_vaddr,
            r.size == self.spec_kernel_size(),
    {
        MemoryRegion { addr: self.begin_vaddr, size: self.kernel_size() }
    }

    /// Returns the physical address for the corresponding virtual one. Should
    /// only be applied to kernel addresses; may be invalid after remapping.
    pub fn physical_addr(&self, virtual_addr: usize) -> (r: usize)
        requires
            virtual_addr >= self.virtual_base,
        ensures
            r == virtual_addr - self.virtual_base,
    {
        virtual_addr - self.virtual_base
    }

    /// Returns the region in physical memory corresponding to the specified
    /// virtual one. Should only be applied to kernel-related memory whose
    /// placement is known.
    pub fn physical_region(&self, virtual_region: MemoryRegion) -> (r: MemoryRegion)
        requires
            virtual_region.addr >= self.virtual_base,
        ensures
            r.addr == virtual_region.addr - self.virtual_base,
            r.size == virtual_region.size,
    {
        MemoryRegion {
            addr: self.physical_addr(virtual_region.addr),
            size: virtual_region.size,
        }
    }
}

} // verus!
