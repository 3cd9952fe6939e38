//! Physical-memory bootstrap layer of a freestanding kernel: a fixed-capacity
//! bit-vector allocator that turns a firmware-supplied memory map into a
//! stream of free page-frame addresses.

pub mod bitmap;
pub mod bits;
pub mod counting;
pub mod cpuid;
pub mod layout;
pub mod memory;
pub mod multiboot;
pub mod paging;
pub mod phys_mem_allocator;
pub mod physical_memory_manager;
pub mod vga;
