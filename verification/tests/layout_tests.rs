use phys_mem::layout::KernelLayout;
use phys_mem::memory::MemoryRegion;

fn sample_layout() -> KernelLayout {
    KernelLayout {
        virtual_base: 0x4000_0000,
        begin_vaddr: 0x4010_0000,
        end_vaddr: 0x4012_3000,
    }
}

#[test]
fn virtual_and_physical_addresses() {
    let layout = sample_layout();
    assert_eq!(0x4010_0000, layout.kernel_begin_vaddr());
    assert_eq!(0x4012_3000, layout.kernel_end_vaddr());
    assert_eq!(0x0010_0000, layout.kernel_begin_phys_addr());
    assert_eq!(0x0012_3000, layout.kernel_end_phys_addr());
    assert_eq!(0x0002_3000, layout.kernel_size());
}

#[test]
fn placements() {
    let layout = sample_layout();
    let phys = layout.physical_kernel_placement();
    assert_eq!(0x0010_0000, phys.addr);
    assert_eq!(0x0002_3000, phys.size);
    let virt = layout.virtual_kernel_placement();
    assert_eq!(0x4010_0000, virt.addr);
    assert_eq!(0x0002_3000, virt.size);
}

#[test]
fn region_translation() {
    let layout = sample_layout();
    assert_eq!(0x0020_0000, layout.physical_addr(0x4020_0000));
    let region = layout.physical_region(MemoryRegion { addr: 0x4020_0000, size: 0x1000 });
    assert_eq!(0x0020_0000, region.addr);
    assert_eq!(0x1000, region.size);
}
