use aspm::capability::CapError;
use aspm::register::{
    apply_link_control_patch, link_control_value, patch_config_space, read_link_control,
    PCI_EXP_LNKCTL_ASPM_L0S, PCI_EXP_LNKCTL_ASPM_L1,
};

fn with_register(lo: u8, hi: u8) -> Vec<u8> {
    let mut b = vec![0u8; 256];
    b[0x34] = 0x40;
    b[0x40] = 0x05;
    b[0x41] = 0x50;
    b[0x50] = 0x10;
    b[0x60] = lo;
    b[0x61] = hi;
    b
}

#[test]
fn register_is_read_little_endian() {
    let b = with_register(0x42, 0x01);
    assert_eq!(read_link_control(&b, &(0x60..0x62)), 0x0142);
}

#[test]
fn disable_l0s_enable_l1_from_zero() {
    assert_eq!(link_control_value(0x0000, 0x0003, 0x0002), 0x0002);
    let mut b = with_register(0x00, 0x00);
    assert!(apply_link_control_patch(&mut b, &(0x60..0x62), 0x0003, 0x0002));
    assert_eq!(b[0x60], 0x02);
    assert_eq!(b[0x61], 0x00);
}

#[test]
fn enable_both_when_already_enabled_writes_nothing() {
    assert_eq!(link_control_value(0x0003, 0x0003, 0x0003), 0x0003);
    let mut b = with_register(0x03, 0x00);
    let before = b.clone();
    assert!(!apply_link_control_patch(&mut b, &(0x60..0x62), 0x0003, 0x0003));
    assert_eq!(b, before);
}

#[test]
fn enable_l0s_changes_bit_zero_only() {
    let old: u16 = 0xa5a2;
    let new = link_control_value(old, PCI_EXP_LNKCTL_ASPM_L0S, PCI_EXP_LNKCTL_ASPM_L0S);
    assert_eq!(new, 0xa5a3);
    assert_eq!(new & !1, old & !1);
}

#[test]
fn disable_l1_keeps_other_bits() {
    assert_eq!(link_control_value(0xffff, PCI_EXP_LNKCTL_ASPM_L1, 0), 0xfffd);
}

#[test]
fn empty_mask_keeps_value() {
    assert_eq!(link_control_value(0x1234, 0, 0), 0x1234);
}

#[test]
fn patch_twice_writes_once() {
    let mut b = with_register(0xf1, 0x7e);
    assert!(apply_link_control_patch(&mut b, &(0x60..0x62), 0x0003, 0x0002));
    let after_first = b.clone();
    assert_eq!(b[0x60], 0xf2);
    assert_eq!(b[0x61], 0x7e);
    assert!(!apply_link_control_patch(&mut b, &(0x60..0x62), 0x0003, 0x0002));
    assert_eq!(b, after_first);
}

#[test]
fn high_byte_is_written_back() {
    let mut b = with_register(0x00, 0x00);
    assert!(apply_link_control_patch(&mut b, &(0x60..0x62), 0xffff, 0xbeef));
    assert_eq!(b[0x60], 0xef);
    assert_eq!(b[0x61], 0xbe);
}

#[test]
fn config_space_patch_reports_written_range() {
    let mut b = with_register(0x00, 0x00);
    let mut expected = b.clone();
    expected[0x60] = 0x02;
    assert_eq!(patch_config_space(&mut b, 0x0003, 0x0002), Ok(Some(0x60..0x62)));
    assert_eq!(b, expected);
}

#[test]
fn config_space_patch_without_change_reports_none() {
    let mut b = with_register(0x03, 0x00);
    let before = b.clone();
    assert_eq!(patch_config_space(&mut b, 0x0003, 0x0003), Ok(None));
    assert_eq!(b, before);
}

#[test]
fn config_space_patch_failure_leaves_buffer() {
    let mut b = with_register(0x00, 0x00);
    b[0x50] = 0x01;
    let before = b.clone();
    assert_eq!(patch_config_space(&mut b, 0x0003, 0x0002), Err(CapError::NotFound));
    assert_eq!(b, before);
}
