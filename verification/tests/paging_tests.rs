use phys_mem::paging::PageTableEntry;

#[test]
fn empty_entry_is_not_present() {
    let entry = PageTableEntry::empty();
    assert!(!entry.is_present());
}

#[test]
fn present_bit_toggles() {
    let mut entry = PageTableEntry::empty();
    entry.present();
    assert!(entry.is_present());
    entry.not_present();
    assert!(!entry.is_present());
}

#[test]
fn set_phys_addr_keeps_flags() {
    let mut entry = PageTableEntry::empty();
    entry.present();
    entry.set_phys_addr(0x1234_5000);
    assert!(entry.is_present());
    entry.not_present();
    assert!(!entry.is_present());
}
