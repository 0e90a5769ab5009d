use tinyproto::proto::crc::{crc_compute, get_crc_field_size, Crc16, Crc32, Crc8, HdlcCrcT};

const CHECK: &[u8] = b"123456789";

#[test]
fn fcs16_check_value() {
    let mut c = Crc16::new();
    c.sum_bytes(CHECK, CHECK.len());
    assert_eq!(c.get(), 0x906E);
}

#[test]
fn fcs32_check_value() {
    let mut c = Crc32::new();
    c.sum_bytes(CHECK, CHECK.len());
    assert_eq!(c.get(), 0xCBF4_3926);
}

#[test]
fn checksum8_is_byte_sum() {
    let mut c = Crc8::new();
    c.sum_bytes(&[0x80, 0x90, 0x01], 3);
    assert_eq!(c.get(), 0x11);
}

#[test]
fn crc_in_pieces_equals_crc_at_once() {
    let mut a = Crc16::new();
    a.sum_bytes(&CHECK[..4], 4);
    a.sum_bytes(&CHECK[4..], 5);
    let mut b = Crc16::new();
    b.sum_bytes(CHECK, 9);
    assert_eq!(a.get(), b.get());
}

#[test]
fn crc_compute_by_kind() {
    assert_eq!(crc_compute(HdlcCrcT::HdlcCrc16, CHECK, 9), 0x906E);
    assert_eq!(crc_compute(HdlcCrcT::HdlcCrc32, CHECK, 9), 0xCBF4_3926);
    assert_eq!(crc_compute(HdlcCrcT::HdlcCrcDefault, CHECK, 9), 0xCBF4_3926);
    assert_eq!(crc_compute(HdlcCrcT::HdlcCrcOff, CHECK, 9), 0);
    // only the first `len` bytes count
    assert_eq!(crc_compute(HdlcCrcT::HdlcCrc8, &[1, 2, 3, 4], 2), 3);
}

#[test]
fn crc_field_sizes() {
    assert_eq!(get_crc_field_size(HdlcCrcT::HdlcCrcDefault), 4);
    assert_eq!(get_crc_field_size(HdlcCrcT::HdlcCrc8), 1);
    assert_eq!(get_crc_field_size(HdlcCrcT::HdlcCrc16), 2);
    assert_eq!(get_crc_field_size(HdlcCrcT::HdlcCrc32), 4);
    assert_eq!(get_crc_field_size(HdlcCrcT::HdlcCrcOff), 0);
}
