use paging::addr::{PhysicalAddress, VirtualAddress};
use paging::paging::VirtualAddressEx;

#[test]
fn strict_construction_rejects_non_canonical() {
    assert!(VirtualAddress::new(0x0000_8000_0000_0000).is_none());
    assert!(VirtualAddress::new(0xffff_7fff_ffff_ffff).is_none());
    assert!(VirtualAddress::new(0x0000_7fff_ffff_ffff).is_some());
    assert!(VirtualAddress::new(0xffff_8000_0000_0000).is_some());
    assert!(VirtualAddress::new(0).is_some());
    assert!(VirtualAddress::new(0xffff_ffff_ffff_ffff).is_some());
}

#[test]
fn canonicalise_sign_extends_bit_47() {
    let v = VirtualAddress::new_canonicalise(0x0000_8000_0000_0000);
    assert_eq!(v.raw(), 0xffff_8000_0000_0000);
    let w = VirtualAddress::new_canonicalise(0x0000_7fff_ffff_ffff);
    assert_eq!(w.raw(), 0x0000_7fff_ffff_ffff);
    let x = VirtualAddress::new_canonicalise(0x1234_8000_0000_0000);
    assert_eq!(x.raw(), 0xffff_8000_0000_0000);
}

#[test]
fn canonicalise_is_idempotent_on_samples() {
    let samples: Vec<u64> = vec![
        0,
        0x0000_8000_0000_0000,
        0xdead_beef_dead_beef,
        0x0000_7fff_ffff_ffff,
        0xffff_ffff_ffff_ffff,
        0x4000_0000_0000,
    ];
    let mut i = 0;
    while i < samples.len() {
        let once = VirtualAddress::new_canonicalise(samples[i]);
        let twice = VirtualAddress::new_canonicalise(once.raw());
        assert_eq!(once.raw(), twice.raw());
        i += 1;
    }
}

#[test]
fn page_table_offsets_pack_and_extract() {
    let v = VirtualAddress::from_page_table_offsets(128, 0, 0, 0, 0);
    assert_eq!(v.raw(), 0x4000_0000_0000);
    assert_eq!(v.p4_index(), 128);
    assert_eq!(v.p3_index(), 0);
    assert_eq!(v.p2_index(), 0);
    assert_eq!(v.p1_index(), 0);

    let w = VirtualAddress::from_page_table_offsets(511, 3, 7, 9, 0x123);
    assert_eq!(w.p4_index(), 511);
    assert_eq!(w.p3_index(), 3);
    assert_eq!(w.p2_index(), 7);
    assert_eq!(w.p1_index(), 9);
    assert_eq!(w.offset_into_page(), 0x123);
}

#[test]
fn alignment_queries() {
    let v = VirtualAddress::new(0x1234_5000).unwrap();
    assert!(v.is_page_aligned());
    assert!(v.is_aligned_to(0x1000));
    assert!(!v.is_aligned_to(0x20_0000));
    assert_eq!(v.offset_into_page(), 0);

    let w = VirtualAddress::new(0x1234_5678).unwrap();
    assert!(!w.is_page_aligned());
    assert_eq!(w.offset_into_page(), 0x678);
}

#[test]
fn align_down_and_up() {
    let v = VirtualAddress::new(0x1234_5678).unwrap();
    assert_eq!(v.align_down(0x1000).raw(), 0x1234_5000);
    assert_eq!(v.align_down(0).raw(), 0x1234_5678);
    assert_eq!(v.align_up(0x1000).raw(), 0x1234_6000);
    assert_eq!(v.align_up(0x20_0000).raw(), 0x1240_0000);
    let aligned = VirtualAddress::new(0x20_0000).unwrap();
    assert_eq!(aligned.align_up(0x20_0000).raw(), 0x20_0000);
    assert_eq!(aligned.align_down(0x20_0000).raw(), 0x20_0000);
}

#[test]
fn offset_moves_and_canonicalises() {
    let v = VirtualAddress::new(0x1000).unwrap();
    assert_eq!(v.offset(0x234).raw(), 0x1234);
    assert_eq!(v.offset(-0x1000).raw(), 0);
    let top_of_low = VirtualAddress::new(0x0000_7fff_ffff_f000).unwrap();
    let wrapped = top_of_low.offset(0x1000);
    assert_eq!(wrapped.raw(), 0xffff_8000_0000_0000);
}

#[test]
fn physical_addresses_are_bounded() {
    assert!(PhysicalAddress::new(0x0010_0000_0000_0000).is_none());
    let p = PhysicalAddress::new(0x5000).unwrap();
    assert_eq!(p.raw(), 0x5000);
    assert!(p.is_aligned_to(0x1000));
}
