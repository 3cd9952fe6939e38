use phys_mem::cpuid::{decode_cpu_info, VendorId};

#[test]
fn cpu_info_availability() {
    let with_info = VendorId { vendor: *b"GenuineIntel", max_basic_func: 13, max_extended_func: 8 };
    assert!(with_info.is_cpu_info_available());
    let without = VendorId { vendor: *b"GenuineIntel", max_basic_func: 0, max_extended_func: 0 };
    assert!(!without.is_cpu_info_available());
}

#[test]
fn decode_family_six_folds_extended_model() {
    /* An IvyBridge-style signature: stepping 9, model 0x3a, family 6. */
    let info = decode_cpu_info(0x000306a9, 0x1234, 0x5678, 0x9abc);
    assert_eq!(9, info.stepping);
    assert_eq!(6, info.family);
    assert_eq!(0x3a, info.model);
    assert_eq!(0, info.cpu_type);
    assert_eq!(0x1234, info.features1);
    assert_eq!(0x5678, info.features2);
    assert_eq!(0x9abc, info.features3);
}

#[test]
fn decode_family_fifteen_adds_extended_family() {
    /* Family 15 with extended family 1 and extended model 2. */
    let info = decode_cpu_info(0x0120f43, 0, 0, 0);
    assert_eq!(3, info.stepping);
    assert_eq!(15 + 1, info.family);
    assert_eq!(4 + (2 << 4), info.model);
}

#[test]
fn decode_plain_family_keeps_base_model() {
    /* Family 5: the extended fields are ignored. */
    let info = decode_cpu_info(0x00121567, 0, 0, 0);
    assert_eq!(7, info.stepping);
    assert_eq!(5, info.family);
    assert_eq!(6, info.model);
    assert_eq!(1, info.cpu_type);
}
