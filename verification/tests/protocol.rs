use tinyproto::proto::crc::HdlcCrcT;
use tinyproto::proto::error::TinyError;
use tinyproto::proto::fd::defines::{FdMode, FD_EVENT_TX_DATA_AVAILABLE, FD_PRIMARY_ADDR};
use tinyproto::proto::fd::protocol::{FdEvent, TinyFd, TinyFdConfig};

fn default_config() -> TinyFdConfig {
    TinyFdConfig {
        crc_type: HdlcCrcT::HdlcCrc16,
        window_frames: 4,
        mtu: 64,
        send_timeout: 1000,
        retry_timeout: 100,
        retries: 2,
        addr: 0,
        peers_count: 1,
        mode: FdMode::Abm,
        rx_buf_size: 512,
    }
}

/// Payloads of the received frames reported since the last call.
fn take_reads(fd: &mut TinyFd) -> Vec<Vec<u8>> {
    let mut out = Vec::new();
    while let Some(ev) = fd.pop_event() {
        if let FdEvent::Read { payload, .. } = ev {
            out.push(payload);
        }
    }
    out
}

/// Connection events (`true`: connected) reported since the last call.
fn take_connects(fd: &mut TinyFd) -> Vec<bool> {
    let mut out = Vec::new();
    while let Some(ev) = fd.pop_event() {
        if let FdEvent::Connect { connected, .. } = ev {
            out.push(connected);
        }
    }
    out
}

#[test]
fn test_fd_init() {
    let fd = TinyFd::new(&default_config()).unwrap();
    assert_eq!(fd.get_mtu(), 64);
    assert!(fd.get_status().is_err());
}

#[test]
fn test_fd_connect_abm() {
    let mut primary = TinyFd::new(&default_config()).unwrap();
    let mut secondary = TinyFd::new(&TinyFdConfig { addr: 1, ..default_config() }).unwrap();

    primary.check_timeouts();

    let mut buf = vec![0u8; 256];
    let written = primary.get_tx_data(&mut buf, 0);
    assert!(written > 0, "Primary should have SABM to send");
    let sabm_data = buf[..written].to_vec();

    secondary.on_rx_data(&sabm_data).unwrap();

    let written = secondary.get_tx_data(&mut buf, 0);
    assert!(written > 0, "Secondary should have UA to send");
    let ua_data = buf[..written].to_vec();

    assert_eq!(take_connects(&mut secondary).last(), Some(&true));

    primary.on_rx_data(&ua_data).unwrap();

    assert_eq!(take_connects(&mut primary).last(), Some(&true));
    assert!(primary.get_status().is_ok());
}

#[test]
fn test_fd_send_receive() {
    let mut primary = TinyFd::new(&default_config()).unwrap();
    let mut secondary = TinyFd::new(&TinyFdConfig { addr: 1, ..default_config() }).unwrap();

    let mut buf = vec![0u8; 256];
    primary.check_timeouts();
    let w = primary.get_tx_data(&mut buf, 0);
    secondary.on_rx_data(&buf[..w]).unwrap();
    let w = secondary.get_tx_data(&mut buf, 0);
    primary.on_rx_data(&buf[..w]).unwrap();

    let payload = vec![0xAA, 0xBB, 0xCC];
    primary.send_packet(FD_PRIMARY_ADDR, &payload, 0).unwrap();

    let w = primary.get_tx_data(&mut buf, 0);
    assert!(w > 0);
    secondary.on_rx_data(&buf[..w]).unwrap();

    let frames = take_reads(&mut secondary);
    assert_eq!(frames.len(), 1);
    assert_eq!(frames[0], payload);
}

#[test]
fn test_fd_invalid_window() {
    let result = TinyFd::new(&TinyFdConfig { window_frames: 0, ..default_config() });
    assert!(result.is_err());

    let result = TinyFd::new(&TinyFdConfig { window_frames: 8, ..default_config() });
    assert!(result.is_err());
}

fn connect_pair() -> (TinyFd, TinyFd) {
    let mut primary = TinyFd::new(&default_config()).unwrap();
    let mut secondary = TinyFd::new(&TinyFdConfig { addr: 1, ..default_config() }).unwrap();
    let mut buf = vec![0u8; 256];
    primary.check_timeouts();
    let w = primary.get_tx_data(&mut buf, 0);
    secondary.on_rx_data(&buf[..w]).unwrap();
    let w = secondary.get_tx_data(&mut buf, 0);
    primary.on_rx_data(&buf[..w]).unwrap();
    // events of the connection set-up are not of interest to the callers
    while primary.pop_event().is_some() {}
    while secondary.pop_event().is_some() {}
    (primary, secondary)
}

/// Exchange all pending TX data between two peers in both directions.
fn exchange(a: &mut TinyFd, b: &mut TinyFd) {
    let mut buf = vec![0u8; 512];
    loop {
        let w1 = a.get_tx_data(&mut buf, 0);
        if w1 > 0 {
            b.on_rx_data(&buf[..w1]).unwrap();
        }
        let w2 = b.get_tx_data(&mut buf, 0);
        if w2 > 0 {
            a.on_rx_data(&buf[..w2]).unwrap();
        }
        if w1 == 0 && w2 == 0 {
            break;
        }
    }
}

#[test]
fn test_fd_disconnect() {
    let (mut primary, mut secondary) = connect_pair();
    assert!(primary.get_status().is_ok());
    assert!(secondary.get_status().is_ok());

    primary.disconnect().unwrap();
    exchange(&mut primary, &mut secondary);

    assert!(take_connects(&mut secondary).contains(&false));
    assert!(take_connects(&mut primary).contains(&false));
    assert!(primary.get_status().is_err());
    assert!(secondary.get_status().is_err());
}

#[test]
fn test_fd_bidirectional_data() {
    let (mut primary, mut secondary) = connect_pair();

    let payload_to_secondary = vec![0x11, 0x22, 0x33];
    let payload_to_primary = vec![0xAA, 0xBB, 0xCC];

    primary.send_packet(FD_PRIMARY_ADDR, &payload_to_secondary, 0).unwrap();
    secondary.send_packet(FD_PRIMARY_ADDR, &payload_to_primary, 0).unwrap();

    exchange(&mut primary, &mut secondary);

    let sr_frames = take_reads(&mut secondary);
    assert_eq!(sr_frames.len(), 1);
    assert_eq!(sr_frames[0], payload_to_secondary);

    let pr_frames = take_reads(&mut primary);
    assert_eq!(pr_frames.len(), 1);
    assert_eq!(pr_frames[0], payload_to_primary);
}

#[test]
fn test_fd_multiple_frames() {
    let (mut primary, mut secondary) = connect_pair();

    let payload1 = vec![0x10, 0x20, 0x30];
    let payload2 = vec![0x40, 0x50, 0x60];
    let payload3 = vec![0x70, 0x80, 0x90];

    primary.send_packet(FD_PRIMARY_ADDR, &payload1, 0).unwrap();
    primary.send_packet(FD_PRIMARY_ADDR, &payload2, 0).unwrap();
    primary.send_packet(FD_PRIMARY_ADDR, &payload3, 0).unwrap();

    exchange(&mut primary, &mut secondary);

    let frames = take_reads(&mut secondary);
    assert_eq!(frames.len(), 3);
    assert_eq!(frames[0], payload1);
}

#[test]
fn test_fd_send_data_too_large() {
    let (mut primary, _secondary) = connect_pair();
    let oversized = vec![0u8; primary.get_mtu() + 1];
    let result = primary.send_packet(FD_PRIMARY_ADDR, &oversized, 0);
    assert_eq!(result, Err(TinyError::DataTooLarge));
}

#[test]
fn test_fd_send_before_connect() {
    let mut primary = TinyFd::new(&default_config()).unwrap();
    assert!(primary.get_status().is_err());

    let payload = vec![0x01, 0x02];
    let result = primary.send_packet(FD_PRIMARY_ADDR, &payload, 0);
    assert!(result.is_ok());

    let mut buf = vec![0u8; 256];
    let w = primary.get_tx_data(&mut buf, 0);
    let mut rx = TinyFd::new(&TinyFdConfig { addr: 1, ..default_config() }).unwrap();
    if w > 0 {
        rx.on_rx_data(&buf[..w]).unwrap();
    }
    let frames = take_reads(&mut rx);
    assert!(frames.is_empty(), "I-frame data should not be sent before connection");
}

#[test]
fn fd_rejects_zero_rx_buffer() {
    let result = TinyFd::new(&TinyFdConfig { rx_buf_size: 0, ..default_config() });
    assert!(matches!(result, Err(TinyError::InvalidData)));
}

#[test]
fn fd_send_to_unknown_peer() {
    let (mut primary, _secondary) = connect_pair();
    let result = primary.send_packet(7, &[1, 2], 0);
    assert_eq!(result, Err(TinyError::UnknownPeer));
}

#[test]
fn fd_window_limits_queued_frames() {
    let (mut primary, _secondary) = connect_pair();
    // a window of 4 frames: the fifth packet finds the queue full
    for i in 0..4u8 {
        primary.send_packet(FD_PRIMARY_ADDR, &[i], 0).unwrap();
    }
    let result = primary.send_packet(FD_PRIMARY_ADDR, &[9], 0);
    assert!(result.is_err());
}

#[test]
fn fd_connection_reports_peer_address() {
    let mut primary = TinyFd::new(&default_config()).unwrap();
    let mut secondary = TinyFd::new(&TinyFdConfig { addr: 1, ..default_config() }).unwrap();
    let mut buf = vec![0u8; 256];
    primary.check_timeouts();
    let w = primary.get_tx_data(&mut buf, 0);
    secondary.on_rx_data(&buf[..w]).unwrap();
    match secondary.pop_event() {
        Some(FdEvent::Connect { address, connected }) => {
            assert_eq!(address, FD_PRIMARY_ADDR);
            assert!(connected);
        },
        _ => panic!("expected a connect event"),
    }
    let w = secondary.get_tx_data(&mut buf, 0);
    primary.on_rx_data(&buf[..w]).unwrap();
    match primary.pop_event() {
        Some(FdEvent::Connect { address, connected }) => {
            assert_eq!(address, 1);
            assert!(connected);
        },
        _ => panic!("expected a connect event"),
    }
}

#[test]
fn fd_get_tx_data_with_empty_buffer_writes_nothing() {
    let mut primary = TinyFd::new(&default_config()).unwrap();
    let mut empty: Vec<u8> = Vec::new();
    assert_eq!(primary.get_tx_data(&mut empty, 10), 0);
    // the SABM is still sent afterwards
    let mut buf = vec![0u8; 64];
    assert!(primary.get_tx_data(&mut buf, 0) > 0);
}

#[test]
fn fd_repeated_i_frame_is_delivered_once() {
    let (mut primary, mut secondary) = connect_pair();
    primary.send_packet(FD_PRIMARY_ADDR, &[0x42, 0x43], 0).unwrap();
    let mut buf = vec![0u8; 256];
    let w = primary.get_tx_data(&mut buf, 0);
    let frame = buf[..w].to_vec();
    secondary.on_rx_data(&frame).unwrap();
    // the same I-frame again: its send number is no longer the expected one
    secondary.on_rx_data(&frame).unwrap();
    assert_eq!(take_reads(&mut secondary), vec![vec![0x42, 0x43]]);
}

#[test]
fn fd_rx_data_in_pieces() {
    let (mut primary, mut secondary) = connect_pair();
    primary.send_packet(FD_PRIMARY_ADDR, &[1, 2, 3, 4, 5], 0).unwrap();
    let mut buf = vec![0u8; 256];
    let w = primary.get_tx_data(&mut buf, 0);
    for b in &buf[..w] {
        secondary.on_rx_data(&[*b]).unwrap();
    }
    assert_eq!(take_reads(&mut secondary), vec![vec![1, 2, 3, 4, 5]]);
}

/// Lets `ms` milliseconds pass.
fn wait_ms(ms: u64) {
    let start = std::time::Instant::now();
    while start.elapsed() < std::time::Duration::from_millis(ms) {}
}

#[test]
fn fd_unacknowledged_frame_is_sent_again() {
    let (mut primary, mut secondary) = connect_pair();
    primary.send_packet(FD_PRIMARY_ADDR, &[0x5A], 0).unwrap();
    let mut buf = vec![0u8; 256];
    let w = primary.get_tx_data(&mut buf, 0);
    assert!(w > 0);
    // the frame is lost; nothing more is sent before the retry timeout
    assert_eq!(primary.get_tx_data(&mut buf, 0), 0);
    wait_ms(150);
    let w = primary.get_tx_data(&mut buf, 0);
    assert!(w > 0);
    secondary.on_rx_data(&buf[..w]).unwrap();
    assert_eq!(take_reads(&mut secondary), vec![vec![0x5A]]);
}

#[test]
fn fd_retransmits_after_each_timeout() {
    let (mut primary, _secondary) = connect_pair();
    primary.send_packet(FD_PRIMARY_ADDR, &[0x5A], 0).unwrap();
    let mut buf = vec![0u8; 256];
    let first = primary.get_tx_data(&mut buf, 0);
    let first_bytes = buf[..first].to_vec();
    // handing out the frame again restores the retries, so the peer stays
    for _ in 0..3 {
        wait_ms(150);
        let w = primary.get_tx_data(&mut buf, 0);
        assert_eq!(buf[..w].to_vec(), first_bytes);
        assert!(primary.get_status().is_ok());
    }
}

#[test]
fn fd_without_retries_gives_up_on_timeout() {
    let cfg = || TinyFdConfig { retries: 0, ..default_config() };
    let mut primary = TinyFd::new(&cfg()).unwrap();
    let mut secondary = TinyFd::new(&TinyFdConfig { addr: 1, ..cfg() }).unwrap();
    let mut buf = vec![0u8; 256];
    primary.check_timeouts();
    let w = primary.get_tx_data(&mut buf, 0);
    secondary.on_rx_data(&buf[..w]).unwrap();
    let w = secondary.get_tx_data(&mut buf, 0);
    primary.on_rx_data(&buf[..w]).unwrap();
    assert!(primary.get_status().is_ok());
    while primary.pop_event().is_some() {}

    primary.send_packet(FD_PRIMARY_ADDR, &[0x77], 0).unwrap();
    assert!(primary.get_tx_data(&mut buf, 0) > 0);
    wait_ms(150);
    primary.get_tx_data(&mut buf, 0);
    assert!(primary.get_status().is_err());
    assert_eq!(take_connects(&mut primary), vec![false]);
}

#[test]
fn fd_reports_sent_data_frame() {
    let (mut primary, _secondary) = connect_pair();
    let p = vec![0x10, 0x20];
    primary.send_packet(FD_PRIMARY_ADDR, &p, 0).unwrap();
    let mut buf = vec![0u8; 256];
    assert!(primary.get_tx_data(&mut buf, 0) > 0);
    let mut sent = Vec::new();
    while let Some(ev) = primary.pop_event() {
        if let FdEvent::Sent { address, payload } = ev {
            sent.push((address, payload));
        }
    }
    assert_eq!(sent, vec![(1u8, p)]);
}

#[test]
fn fd_timeout_threshold_is_retry_timeout() {
    let mut fd = TinyFd::new(&default_config()).unwrap();
    // retry timeout 100 ms: 99 ms is not enough for a connection request
    fd.peer_timeout_after(0, 99, 0);
    assert_eq!(fd.events() & FD_EVENT_TX_DATA_AVAILABLE, 0);
    fd.peer_timeout_after(0, 100, 0);
    assert_ne!(fd.events() & FD_EVENT_TX_DATA_AVAILABLE, 0);
    // the SABM [address 0x05, control 0x3F] is what goes out
    let mut buf = vec![0u8; 64];
    let w = fd.get_tx_data(&mut buf, 0);
    assert!(w >= 3);
    assert_eq!(&buf[1..3], &[0x05, 0x3F]);
}
