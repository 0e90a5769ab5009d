use tinyproto::proto::fd::defines::{FdState, HDLC_E_BIT, HDLC_INVALID_PEER_INDEX, HDLC_PRIMARY_ADDR};
use tinyproto::proto::fd::peers::{is_primary_address, PeerInfo, PeerManager};

#[test]
fn test_primary_station() {
    let pm = PeerManager::new(HDLC_PRIMARY_ADDR | HDLC_E_BIT, 1);
    assert!(pm.is_primary_station());
    assert!(!pm.is_secondary_station());
}

#[test]
fn test_secondary_station() {
    let addr = (1 << 2) | HDLC_E_BIT;
    let pm = PeerManager::new(addr, 1);
    assert!(!pm.is_primary_station());
    assert!(pm.is_secondary_station());
}

#[test]
fn test_address_resolution_secondary() {
    let addr = (1 << 2) | HDLC_E_BIT;
    let pm = PeerManager::new(addr, 1);
    let peer = pm.address_field_to_peer(HDLC_PRIMARY_ADDR | HDLC_E_BIT);
    assert_eq!(peer, 0);
    let peer = pm.address_field_to_peer((5 << 2) | HDLC_E_BIT);
    assert_eq!(peer, HDLC_INVALID_PEER_INDEX);
}

#[test]
fn primary_peers_get_sequential_addresses() {
    let mut pm = PeerManager::new(HDLC_PRIMARY_ADDR | HDLC_E_BIT, 3);
    assert_eq!(pm.peers.len(), 3);
    assert_eq!(pm.peer_to_address_field(0), (1 << 2) | HDLC_E_BIT);
    assert_eq!(pm.peer_to_address_field(2), (3 << 2) | HDLC_E_BIT);
    assert_eq!(pm.address_field_to_peer((2 << 2) | HDLC_E_BIT), 1);
    // the C/R bit does not matter
    assert_eq!(pm.address_field_to_peer((2 << 2) | HDLC_E_BIT | 0x02), 1);
    assert_eq!(pm.address_field_to_peer((9 << 2) | HDLC_E_BIT), HDLC_INVALID_PEER_INDEX);
    assert_eq!(pm.switch_to_next_peer(), 1);
    assert_eq!(pm.switch_to_next_peer(), 2);
    assert_eq!(pm.switch_to_next_peer(), 0);
}

#[test]
fn zero_peers_means_one() {
    let pm = PeerManager::new(HDLC_PRIMARY_ADDR | HDLC_E_BIT, 0);
    assert_eq!(pm.peers.len(), 1);
    let sec = PeerManager::new((4 << 2) | HDLC_E_BIT, 5);
    assert_eq!(sec.peers.len(), 1);
    assert_eq!(sec.peer_to_address_field(0), (4 << 2) | HDLC_E_BIT);
}

#[test]
fn primary_address_ignores_cr_bit() {
    assert!(is_primary_address(0x01));
    assert!(is_primary_address(0x03));
    assert!(!is_primary_address(0x05));
    assert!(!is_primary_address(0x00));
}

#[test]
fn peer_starts_disconnected_and_resets() {
    let mut p = PeerInfo::new(0x05);
    assert_eq!(p.state, FdState::Disconnected);
    assert_eq!(p.addr, 0x05);
    p.sent_nr = 3;
    p.sent_reject = true;
    p.i_queue_control.move_to_next_ns();
    p.reset_connection();
    assert_eq!(p.sent_nr, 0);
    assert!(!p.sent_reject);
    assert_eq!(p.i_queue_control.get_last_ns(), 0);
}
