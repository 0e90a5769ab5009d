use tinyproto::proto::crc::HdlcCrcT;
use tinyproto::proto::hdlc::low_level::{HdlcEncoder, ResultT};

#[test]
fn test_encoder() {
    let encoder = HdlcEncoder::new(HdlcCrcT::HdlcCrcOff, 0);
    let data: [u8; 4] = [0x7F, 0x7E, 0x7D, 0x00];
    let mut encoded = Vec::new();
    let result = encoder.encode(&data, &mut encoded);
    let expected: [u8; 8] = [0x7E, 0x7F, 0x7D, 0x5E, 0x7D, 0x5D, 0x00, 0x7E];
    assert_eq!(result, ResultT::Success, "Encoding failed");
    assert_eq!(encoded.len(), expected.len(), "Special bytes mismatch");
    assert_eq!(encoded, expected, "Arrays are not equal");

    let mut decoded = Vec::new();
    let (used, result) = encoder.decode(&encoded, &mut decoded);
    assert_eq!(result, ResultT::Success, "Decoding failed");
    assert_eq!(used, encoded.len(), "Decoding failed");
    assert_eq!(decoded.len(), data.len(), "Special bytes mismatch");
    assert_eq!(decoded, data, "Arrays are not equal");
}

#[test]
fn encoder_appends_fcs16_little_endian() {
    let encoder = HdlcEncoder::new(HdlcCrcT::HdlcCrc16, 0);
    let mut encoded = Vec::new();
    assert_eq!(encoder.encode(b"123456789", &mut encoded), ResultT::Success);
    // FCS-16 of "123456789" is 0x906E, sent low byte first
    assert_eq!(encoded[0], 0x7E);
    assert_eq!(&encoded[1..10], b"123456789");
    assert_eq!(&encoded[10..12], &[0x6E, 0x90]);
    assert_eq!(encoded[12], 0x7E);
    let mut decoded = Vec::new();
    let (used, result) = encoder.decode(&encoded, &mut decoded);
    assert_eq!(result, ResultT::Success);
    assert_eq!(used, encoded.len());
    assert_eq!(decoded, b"123456789".to_vec());
}

#[test]
fn decoder_reports_wrong_check() {
    let encoder = HdlcEncoder::new(HdlcCrcT::HdlcCrc16, 0);
    let mut encoded = Vec::new();
    encoder.encode(&[1, 2, 3], &mut encoded);
    encoded[2] ^= 0x01;
    let mut decoded = Vec::new();
    let (_, result) = encoder.decode(&encoded, &mut decoded);
    assert_ne!(result, ResultT::Success);
}

#[test]
fn encoded_frame_has_flags_only_at_ends() {
    let encoder = HdlcEncoder::new(HdlcCrcT::HdlcCrc16, 0);
    let data = [0x7E, 0x7E, 0x7D, 0x01];
    let mut encoded = Vec::new();
    encoder.encode(&data, &mut encoded);
    assert_eq!(encoded[0], 0x7E);
    assert_eq!(*encoded.last().unwrap(), 0x7E);
    assert!(encoded[1..encoded.len() - 1].iter().all(|b| *b != 0x7E));
    assert!(encoded.len() <= 2 * (data.len() + 2) + 2);
}
