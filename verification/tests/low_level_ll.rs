use tinyproto::proto::crc::HdlcCrcT;
use tinyproto::proto::error::TinyError;
use tinyproto::proto::hdlc::framing::FLAG_SEQUENCE;
use tinyproto::proto::hdlc::low_level::{HdlcEncoder, ResultT};
use tinyproto::proto::hdlc::low_level_ll::{HdlcLl, HdlcLlInit, ResetFlags};

fn create_ll(crc_type: HdlcCrcT) -> HdlcLl {
    HdlcLl::new(&HdlcLlInit { crc_type, mtu: 128, rx_buf_size: 256 }).unwrap()
}

#[test]
fn test_basic_tx_rx_no_crc() {
    let mut tx = create_ll(HdlcCrcT::HdlcCrcOff);
    let mut rx = create_ll(HdlcCrcT::HdlcCrcOff);

    let payload = vec![0x01, 0x02, 0x03, 0x04];
    tx.put_frame(&payload).unwrap();

    let mut buf = vec![0u8; 64];
    let written = tx.run_tx(&mut buf);
    buf.truncate(written);

    assert_eq!(buf[0], FLAG_SEQUENCE);
    assert_eq!(*buf.last().unwrap(), FLAG_SEQUENCE);

    let (consumed, err) = rx.run_rx(&buf);
    assert_eq!(consumed, written);
    assert!(err.is_none());

    let frame = rx.get_rx_frame().unwrap();
    assert_eq!(frame, payload);
}

fn roundtrip(crc_type: HdlcCrcT) {
    let mut tx = create_ll(crc_type);
    let mut rx = create_ll(crc_type);

    let payload = vec![0x01, 0x02, 0x03, 0x04];
    tx.put_frame(&payload).unwrap();

    let mut buf = vec![0u8; 64];
    let written = tx.run_tx(&mut buf);
    buf.truncate(written);

    let (consumed, err) = rx.run_rx(&buf);
    assert_eq!(consumed, written);
    assert!(err.is_none());

    let frame = rx.get_rx_frame().unwrap();
    assert_eq!(frame, payload);
}

#[test]
fn test_tx_rx_with_crc16() {
    roundtrip(HdlcCrcT::HdlcCrc16);
}

#[test]
fn test_tx_rx_with_crc32() {
    roundtrip(HdlcCrcT::HdlcCrc32);
}

#[test]
fn test_tx_rx_with_crc8() {
    roundtrip(HdlcCrcT::HdlcCrc8);
}

#[test]
fn tx_rx_with_default_check() {
    roundtrip(HdlcCrcT::HdlcCrcDefault);
}

#[test]
fn test_escape_bytes() {
    let mut tx = create_ll(HdlcCrcT::HdlcCrcOff);
    let mut rx = create_ll(HdlcCrcT::HdlcCrcOff);

    let payload = vec![0x7F, 0x7E, 0x7D, 0x00];
    tx.put_frame(&payload).unwrap();

    let mut buf = vec![0u8; 64];
    let written = tx.run_tx(&mut buf);
    buf.truncate(written);

    assert_eq!(written, 8);
    assert_eq!(buf, vec![0x7E, 0x7F, 0x7D, 0x5E, 0x7D, 0x5D, 0x00, 0x7E]);

    let (consumed, err) = rx.run_rx(&buf);
    assert_eq!(consumed, written);
    assert!(err.is_none());

    let frame = rx.get_rx_frame().unwrap();
    assert_eq!(frame, payload);
}

#[test]
fn test_put_frame_busy() {
    let mut ll = create_ll(HdlcCrcT::HdlcCrcOff);
    ll.put_frame(&[1, 2, 3]).unwrap();
    assert_eq!(ll.put_frame(&[4, 5, 6]), Err(TinyError::Busy));
}

#[test]
fn test_wrong_crc() {
    let mut tx = create_ll(HdlcCrcT::HdlcCrc16);
    let mut rx = create_ll(HdlcCrcT::HdlcCrc16);

    let payload = vec![0x01, 0x02, 0x03, 0x04];
    tx.put_frame(&payload).unwrap();

    let mut buf = vec![0u8; 64];
    let written = tx.run_tx(&mut buf);
    buf.truncate(written);

    buf[2] ^= 0xFF;

    let (_consumed, err) = rx.run_rx(&buf);
    assert_eq!(err, Some(TinyError::WrongCrc));
    assert!(rx.get_rx_frame().is_none());
}

#[test]
fn test_byte_by_byte_rx() {
    let mut tx = create_ll(HdlcCrcT::HdlcCrc16);
    let mut rx = create_ll(HdlcCrcT::HdlcCrc16);

    let payload = vec![0xAA, 0xBB, 0xCC];
    tx.put_frame(&payload).unwrap();

    let mut buf = vec![0u8; 64];
    let written = tx.run_tx(&mut buf);

    let mut total_consumed = 0;
    for i in 0..written {
        let (consumed, err) = rx.run_rx(&buf[i..i + 1]);
        total_consumed += consumed;
        if err.is_some() {
            panic!("Unexpected error: {:?}", err);
        }
    }
    assert_eq!(total_consumed, written);

    let frame = rx.get_rx_frame().unwrap();
    assert_eq!(frame, payload);
}

#[test]
fn test_byte_by_byte_tx() {
    let mut tx = create_ll(HdlcCrcT::HdlcCrcOff);
    let payload = vec![0x01, 0x02];
    tx.put_frame(&payload).unwrap();

    let mut out = Vec::new();
    loop {
        let mut byte = [0u8; 1];
        let written = tx.run_tx(&mut byte);
        if written == 0 {
            break;
        }
        out.push(byte[0]);
    }
    assert_eq!(out, vec![0x7E, 0x01, 0x02, 0x7E]);
}

#[test]
fn test_reset() {
    let mut ll = create_ll(HdlcCrcT::HdlcCrcOff);
    ll.put_frame(&[1, 2, 3]).unwrap();
    assert!(ll.is_tx_busy());
    ll.reset(ResetFlags::TxOnly);
    assert!(!ll.is_tx_busy());
    ll.put_frame(&[4, 5, 6]).unwrap();
    assert!(ll.is_tx_busy());
}

#[test]
fn test_multiple_frames() {
    let mut tx = create_ll(HdlcCrcT::HdlcCrc16);
    let mut rx = create_ll(HdlcCrcT::HdlcCrc16);

    let mut all_tx_bytes = Vec::new();

    tx.put_frame(&[0x01, 0x02]).unwrap();
    let mut buf = vec![0u8; 64];
    let w = tx.run_tx(&mut buf);
    all_tx_bytes.extend_from_slice(&buf[..w]);

    tx.put_frame(&[0x03, 0x04]).unwrap();
    let w = tx.run_tx(&mut buf);
    all_tx_bytes.extend_from_slice(&buf[..w]);

    let (consumed, err) = rx.run_rx(&all_tx_bytes);
    assert!(err.is_none());
    let f1 = rx.get_rx_frame().unwrap();
    assert_eq!(f1, vec![0x01, 0x02]);

    if consumed < all_tx_bytes.len() {
        let (_, err) = rx.run_rx(&all_tx_bytes[consumed..]);
        assert!(err.is_none());
    }
    let f2 = rx.get_rx_frame().unwrap();
    assert_eq!(f2, vec![0x03, 0x04]);
}

#[test]
fn test_tx_sent_notification() {
    let mut tx = create_ll(HdlcCrcT::HdlcCrcOff);
    let payload = vec![0x01, 0x02, 0x03];
    tx.put_frame(&payload).unwrap();

    let mut buf = vec![0u8; 64];
    let _ = tx.run_tx(&mut buf);

    let sent = tx.get_tx_sent_frame().unwrap();
    assert_eq!(sent, payload);
}

#[test]
fn test_large_payload_all_crc_types() {
    for crc_type in [HdlcCrcT::HdlcCrcOff, HdlcCrcT::HdlcCrc8, HdlcCrcT::HdlcCrc16, HdlcCrcT::HdlcCrc32] {
        let mut tx = HdlcLl::new(&HdlcLlInit { crc_type, mtu: 256, rx_buf_size: 512 }).unwrap();
        let mut rx = HdlcLl::new(&HdlcLlInit { crc_type, mtu: 256, rx_buf_size: 512 }).unwrap();

        let payload: Vec<u8> = (0..128).collect();
        tx.put_frame(&payload).unwrap();

        let mut buf = vec![0u8; 1024];
        let written = tx.run_tx(&mut buf);
        buf.truncate(written);

        let (_, err) = rx.run_rx(&buf);
        assert!(err.is_none(), "CRC {:?} failed", crc_type);

        let frame = rx.get_rx_frame().unwrap();
        assert_eq!(frame, payload);
    }
}

#[test]
fn test_interop_old_encoder_new_decoder() {
    let encoder = HdlcEncoder::new(HdlcCrcT::HdlcCrc16, 0);
    let mut rx = create_ll(HdlcCrcT::HdlcCrc16);

    let payload = vec![0x7F, 0x7E, 0x7D, 0x00];
    let mut encoded = Vec::new();
    encoder.encode(&payload, &mut encoded);

    let (consumed, err) = rx.run_rx(&encoded);
    assert_eq!(consumed, encoded.len());
    assert!(err.is_none());

    let frame = rx.get_rx_frame().unwrap();
    assert_eq!(frame, payload);
}

#[test]
fn test_interop_new_encoder_old_decoder() {
    let mut tx = create_ll(HdlcCrcT::HdlcCrc16);
    let decoder = HdlcEncoder::new(HdlcCrcT::HdlcCrc16, 0);

    let payload = vec![0x7F, 0x7E, 0x7D, 0x00];
    tx.put_frame(&payload).unwrap();

    let mut buf = vec![0u8; 64];
    let written = tx.run_tx(&mut buf);
    buf.truncate(written);

    let mut decoded = Vec::new();
    let (_, result) = decoder.decode(&buf, &mut decoded);
    assert_eq!(result, ResultT::Success);
    assert_eq!(decoded, payload);
}

#[test]
fn ll_rejects_zero_rx_buffer() {
    let r = HdlcLl::new(&HdlcLlInit { crc_type: HdlcCrcT::HdlcCrc16, mtu: 0, rx_buf_size: 0 });
    assert!(matches!(r, Err(TinyError::InvalidData)));
}

#[test]
fn ll_fcs32_check_value() {
    let mut tx = create_ll(HdlcCrcT::HdlcCrc32);
    tx.put_frame(b"123456789").unwrap();
    let mut buf = vec![0u8; 64];
    let w = tx.run_tx(&mut buf);
    // FCS-32 of "123456789" is 0xCBF43926, low byte first
    assert_eq!(w, 1 + 9 + 4 + 1);
    assert_eq!(&buf[10..14], &[0x26, 0x39, 0xF4, 0xCB]);
}

#[test]
fn ll_frame_too_long_for_receiver() {
    // bytes beyond the receiver's buffer are dropped: without a frame check
    // the truncated frame is taken, with one it fails the check
    let mut tx = HdlcLl::new(&HdlcLlInit { crc_type: HdlcCrcT::HdlcCrcOff, mtu: 0, rx_buf_size: 64 }).unwrap();
    let mut rx = HdlcLl::new(&HdlcLlInit { crc_type: HdlcCrcT::HdlcCrcOff, mtu: 0, rx_buf_size: 4 }).unwrap();
    tx.put_frame(&[1, 2, 3, 4, 5, 6]).unwrap();
    let mut buf = vec![0u8; 64];
    let w = tx.run_tx(&mut buf);
    let (_, err) = rx.run_rx(&buf[..w]);
    assert!(err.is_none());
    assert_eq!(rx.get_rx_frame(), Some(vec![1, 2, 3, 4]));

    let mut tx = HdlcLl::new(&HdlcLlInit { crc_type: HdlcCrcT::HdlcCrc16, mtu: 0, rx_buf_size: 64 }).unwrap();
    let mut rx = HdlcLl::new(&HdlcLlInit { crc_type: HdlcCrcT::HdlcCrc16, mtu: 0, rx_buf_size: 4 }).unwrap();
    tx.put_frame(&[1, 2, 3, 4, 5, 6]).unwrap();
    let w = tx.run_tx(&mut buf);
    let (_, err) = rx.run_rx(&buf[..w]);
    assert_eq!(err, Some(TinyError::WrongCrc));
    assert!(rx.get_rx_frame().is_none());
}

#[test]
fn ll_buf_size_adds_check_field() {
    assert_eq!(HdlcLl::get_buf_size(100, HdlcCrcT::HdlcCrc16), 102);
    assert_eq!(HdlcLl::get_buf_size(100, HdlcCrcT::HdlcCrc32), 104);
    assert_eq!(HdlcLl::get_buf_size(100, HdlcCrcT::HdlcCrcOff), 100);
}
