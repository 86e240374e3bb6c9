use msi_cap::cap::{InvalidAccess, MsiCap};

fn cap_with(msg_ctl: u16) -> MsiCap {
    MsiCap::new(msg_ctl)
}

#[test]
fn vector_count_per_encoding() {
    let expected = [1usize, 2, 4, 8, 16, 32, 0, 0];
    for (enc, want) in expected.iter().enumerate() {
        let cap = cap_with((enc as u16) << 4);
        assert_eq!(cap.num_enabled_vectors(), *want, "encoding {}", enc);
    }
}

#[test]
fn structure_size_per_layout() {
    assert_eq!(cap_with(0).size(), 10);
    assert_eq!(cap_with(0x80).size(), 14);
    assert_eq!(cap_with(0x100).size(), 20);
    assert_eq!(cap_with(0x180).size(), 24);
}

#[test]
fn flag_queries() {
    let cap = cap_with(0x181);
    assert!(cap.addr_64_bits());
    assert!(cap.per_vector_mask());
    assert!(cap.enabled());
    let cap = cap_with(0x0e);
    assert!(!cap.addr_64_bits());
    assert!(!cap.per_vector_mask());
    assert!(!cap.enabled());
}

#[test]
fn control_word_write_keeps_read_only_bits() {
    let mut cap = cap_with(0x18e);
    assert_eq!(cap.update(0x2, &[0xff, 0xff]), Ok(()));
    assert_eq!(cap.msg_ctl, 0x18e | 0x71);
    assert_eq!(cap.update(0x2, &[0x00, 0x00]), Ok(()));
    assert_eq!(cap.msg_ctl, 0x18e);
}

#[test]
fn control_dword_write_takes_high_half() {
    let mut cap = cap_with(0x80);
    assert_eq!(cap.update(0x0, &[0xaa, 0xbb, 0x21, 0x00]), Ok(()));
    assert_eq!(cap.msg_ctl, 0xa1);
    assert!(cap.enabled());
    assert_eq!(cap.num_enabled_vectors(), 4);
}

#[test]
fn fixed_bits_survive_write_sequence() {
    let mut cap = cap_with(0x18e);
    let writes: Vec<(u64, Vec<u8>)> = vec![
        (0x2, vec![0xff, 0xff]),
        (0x0, vec![0, 0, 0x00, 0xfe]),
        (0x4, vec![0xff, 0xff, 0xff, 0xff]),
        (0x10, vec![0x01, 0, 0, 0]),
        (0x2, vec![0x50, 0x00]),
    ];
    for (off, data) in writes.iter() {
        let _ = cap.update(*off, data);
        assert_eq!(cap.msg_ctl & !0x71, 0x18e);
        assert!(cap.addr_64_bits());
        assert!(cap.per_vector_mask());
    }
    assert_eq!(cap.msg_ctl, 0x18e | 0x50);
}

#[test]
fn address_low_reserved_bits_cleared() {
    let mut cap = cap_with(0);
    assert_eq!(cap.update(0x4, &[0xff, 0xff, 0xff, 0xff]), Ok(()));
    assert_eq!(cap.msg_addr_lo, 0xffff_fffc);
    assert_eq!(cap.update(0x4, &[0x03, 0x10, 0xe0, 0xfe]), Ok(()));
    assert_eq!(cap.msg_addr_lo, 0xfee0_1000);
    assert_eq!(cap.msg_addr_lo & 3, 0);
}

#[test]
fn layout_32_bit_with_mask() {
    let mut cap = cap_with(0x100);
    assert_eq!(cap.update(0x8, &[0x34, 0x12]), Ok(()));
    assert_eq!(cap.msg_data, 0x1234);
    assert_eq!(cap.update(0x8, &[0x78, 0x56, 0xff, 0xff]), Ok(()));
    assert_eq!(cap.msg_data, 0x5678);
    assert_eq!(cap.update(0xc, &[0x05, 0, 0, 0x80]), Ok(()));
    assert_eq!(cap.mask_bits, 0x8000_0005);
    assert_eq!(cap.msg_addr_hi, 0);
}

#[test]
fn layout_64_bit_with_mask() {
    let mut cap = cap_with(0x180);
    assert_eq!(cap.update(0x8, &[0x01, 0x02, 0x03, 0x04]), Ok(()));
    assert_eq!(cap.msg_addr_hi, 0x0403_0201);
    assert_eq!(cap.update(0xc, &[0xcd, 0xab]), Ok(()));
    assert_eq!(cap.msg_data, 0xabcd);
    assert_eq!(cap.update(0x10, &[0x02, 0, 0, 0]), Ok(()));
    assert_eq!(cap.mask_bits, 2);
    assert!(cap.vector_masked(1));
    assert!(!cap.vector_masked(0));
    assert!(!cap.vector_masked(40));
}

#[test]
fn invalid_accesses_change_nothing() {
    let mut cap = cap_with(0x0);
    let before = cap;
    assert_eq!(cap.update(0x4, &[1, 2]), Err(InvalidAccess::Offset));
    assert_eq!(cap.update(0xc, &[1, 2, 3, 4]), Err(InvalidAccess::Offset));
    assert_eq!(cap.update(0x8, &[1, 2, 3, 4, 5, 6, 7, 8]), Err(InvalidAccess::Length));
    assert_eq!(cap.update(0x2, &[1]), Err(InvalidAccess::Length));
    assert_eq!(cap, before);
}

#[test]
fn mask_ignored_without_capability() {
    let mut cap = cap_with(0x0);
    cap.mask_bits = 0xffff_ffff;
    assert!(!cap.vector_masked(0));
    assert_eq!(cap.update(0xc, &[1, 0, 0, 0]), Err(InvalidAccess::Offset));
}
