use tinyproto::proto::crc::HdlcCrcT;
use tinyproto::proto::error::TinyError;
use tinyproto::proto::hdlc::high_level::{
    Hdlc, HdlcConfig, HdlcEvent, RX_DATA_READY_BIT, TX_ACCEPT_BIT, TX_DATA_READY_BIT, TX_DATA_SENT_BIT,
};
use std::time::Instant;

/// Payloads of the frames reported as received since the last call.
fn take_read(h: &mut Hdlc) -> Vec<Vec<u8>> {
    let mut out = Vec::new();
    while let Some(ev) = h.pop_event() {
        if let HdlcEvent::FrameRead(p) = ev {
            out.push(p);
        }
    }
    out
}

/// Sends a frame and, when the caller has a channel, moves its bytes there
/// until it is sent or `timeout_ms` passes.
fn send_with(
    h: &mut Hdlc,
    data: &[u8],
    timeout_ms: u32,
    send_fn: Option<&mut dyn FnMut(&[u8]) -> i32>,
) -> Result<(), TinyError> {
    h.send(data, timeout_ms)?;
    if timeout_ms == 0 || h.is_multithread() {
        return Ok(());
    }
    let send_fn = match send_fn {
        Some(f) => f,
        None => return Ok(()),
    };
    let start = Instant::now();
    loop {
        if let Some(b) = h.tx_byte() {
            let buf = [b];
            let mut remaining = 1usize;
            while remaining > 0 {
                let sent = send_fn(&buf[..remaining]);
                if sent < 0 {
                    h.cancel_tx();
                    return Err(TinyError::Failed);
                }
                remaining -= sent as usize;
            }
        }
        if let Some(r) = h.send_poll(start.elapsed().as_millis(), timeout_ms) {
            return r;
        }
    }
}

#[test]
fn test_hdlc_send_receive() {
    let mut tx_hdlc = Hdlc::new(&HdlcConfig { crc_type: HdlcCrcT::HdlcCrc16, rx_buf_size: 256, ..Default::default() }).unwrap();
    let mut rx_hdlc = Hdlc::new(&HdlcConfig { crc_type: HdlcCrcT::HdlcCrc16, rx_buf_size: 256, ..Default::default() }).unwrap();

    let payload = vec![0x01, 0x02, 0x03, 0x04];

    send_with(&mut tx_hdlc, &payload, 0, None).unwrap();

    let mut buf = vec![0u8; 64];
    let written = tx_hdlc.get_tx_data(&mut buf);

    let (consumed, err) = rx_hdlc.run_rx(&buf[..written]);
    assert_eq!(consumed, written);
    assert!(err.is_none());

    let frames = take_read(&mut rx_hdlc);
    assert_eq!(frames.len(), 1);
    assert_eq!(frames[0], payload);
}

#[test]
fn test_hdlc_blocking_send() {
    let mut hdlc = Hdlc::new(&HdlcConfig { crc_type: HdlcCrcT::HdlcCrc16, rx_buf_size: 256, ..Default::default() }).unwrap();

    let payload = vec![0x01, 0x02, 0x03];
    let mut output = Vec::new();

    send_with(&mut hdlc, &payload, 1000, Some(&mut |data: &[u8]| -> i32 {
        output.extend_from_slice(data);
        data.len() as i32
    }))
    .unwrap();

    assert!(!output.is_empty());
    assert_eq!(output[0], 0x7E);
    assert_eq!(*output.last().unwrap(), 0x7E);
}

#[test]
fn test_hdlc_reset() {
    let mut hdlc = Hdlc::new(&HdlcConfig::default()).unwrap();
    send_with(&mut hdlc, &[1, 2, 3], 0, None).unwrap();
    hdlc.reset();
    send_with(&mut hdlc, &[4, 5, 6], 0, None).unwrap();
}

#[test]
fn test_hdlc_multiple_frames() {
    let mut tx_hdlc = Hdlc::new(&HdlcConfig { crc_type: HdlcCrcT::HdlcCrc16, rx_buf_size: 256, ..Default::default() }).unwrap();
    let mut rx_hdlc = Hdlc::new(&HdlcConfig { crc_type: HdlcCrcT::HdlcCrc16, rx_buf_size: 256, ..Default::default() }).unwrap();

    let payloads: Vec<Vec<u8>> = vec![vec![0x01, 0x02], vec![0x03, 0x04, 0x05], vec![0xAA, 0xBB, 0xCC, 0xDD]];

    for payload in &payloads {
        send_with(&mut tx_hdlc, payload, 0, None).unwrap();

        let mut buf = vec![0u8; 128];
        let written = tx_hdlc.get_tx_data(&mut buf);
        rx_hdlc.run_rx(&buf[..written]);
    }

    let frames = take_read(&mut rx_hdlc);
    assert_eq!(frames.len(), 3);
    for (i, payload) in payloads.iter().enumerate() {
        assert_eq!(&frames[i], payload);
    }
}

#[test]
fn hdlc_second_send_before_transmission_is_busy() {
    let mut hdlc = Hdlc::new(&HdlcConfig::default()).unwrap();
    assert_eq!(hdlc.events(), TX_ACCEPT_BIT);
    hdlc.send(&[1, 2, 3], 0).unwrap();
    assert_eq!(hdlc.events() & TX_ACCEPT_BIT, 0);
    assert_ne!(hdlc.events() & TX_DATA_READY_BIT, 0);
    assert_eq!(hdlc.send(&[4], 0), Err(TinyError::Busy));
    // once the frame is out, the sender may go on
    let mut buf = vec![0u8; 64];
    let w = hdlc.get_tx_data(&mut buf);
    assert_eq!(w, 1 + 3 + 2 + 1);
    assert_ne!(hdlc.events() & TX_DATA_SENT_BIT, 0);
    match hdlc.pop_event() {
        Some(HdlcEvent::FrameSent(p)) => assert_eq!(p, vec![1, 2, 3]),
        _ => panic!("expected a sent notification"),
    }
    hdlc.send(&[4], 0).unwrap();
}

#[test]
fn hdlc_multithread_send_without_transmitter_times_out() {
    let mut hdlc = Hdlc::new(&HdlcConfig { multithread_mode: true, ..Default::default() }).unwrap();
    assert_eq!(hdlc.send(&[1, 2, 3], 10), Err(TinyError::Timeout));
    // the frame was given up and a new one is accepted
    assert_ne!(hdlc.events() & TX_ACCEPT_BIT, 0);
    let mut buf = vec![0u8; 64];
    assert_eq!(hdlc.get_tx_data(&mut buf), 0);
}

#[test]
fn hdlc_run_rx_sets_ready_bit_and_reports_in_order() {
    let mut tx = Hdlc::new(&HdlcConfig::default()).unwrap();
    let mut rx = Hdlc::new(&HdlcConfig::default()).unwrap();
    let mut wire = Vec::new();
    for p in [vec![9u8], vec![8u8, 7u8]] {
        tx.send(&p, 0).unwrap();
        let mut buf = vec![0u8; 64];
        let w = tx.get_tx_data(&mut buf);
        wire.extend_from_slice(&buf[..w]);
    }
    assert_eq!(rx.events() & RX_DATA_READY_BIT, 0);
    let (used, err) = rx.run_rx(&wire);
    assert!(err.is_none());
    assert!(used > 0);
    let mut seen = take_read(&mut rx);
    if used < wire.len() {
        rx.run_rx(&wire[used..]);
        seen.extend(take_read(&mut rx));
    }
    assert_eq!(seen, vec![vec![9u8], vec![8u8, 7u8]]);
    assert_ne!(rx.events() & RX_DATA_READY_BIT, 0);
}

#[test]
fn hdlc_rejects_zero_rx_buffer() {
    let r = Hdlc::new(&HdlcConfig { rx_buf_size: 0, ..Default::default() });
    assert!(matches!(r, Err(TinyError::InvalidData)));
}

#[test]
fn hdlc_send_poll_decides() {
    let mut h = Hdlc::new(&HdlcConfig::default()).unwrap();
    h.send(&[1, 2], 1000).unwrap();
    // not sent yet: goes on before the timeout, gives up when it is reached
    assert_eq!(h.send_poll(10, 1000), None);
    assert_eq!(h.send_poll(5000, 0xFFFF_FFFF), None);
    assert_eq!(h.send_poll(1000, 1000), Some(Err(TinyError::Timeout)));
    assert_ne!(h.events() & TX_ACCEPT_BIT, 0);
    // a frame sent completely ends the send
    h.send(&[3], 1000).unwrap();
    while h.tx_byte().is_some() {}
    assert_eq!(h.send_poll(0, 1000), Some(Ok(())));
}
