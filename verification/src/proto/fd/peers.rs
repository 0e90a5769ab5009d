//! Peer management of the Full-Duplex protocol: primary/secondary station
//! logic, address-to-peer mapping and per-peer connection state.
use vstd::prelude::*;
use std::time::Instant;
use crate::proto::fd::defines::{FdState, HDLC_CR_BIT, HDLC_E_BIT, HDLC_PRIMARY_ADDR,
    HDLC_INVALID_PEER_INDEX};
use crate::proto::fd::i_queue_control::IQueueControl;
use crate::proto::fd::clock::{instant_now, instant_checked_sub_secs};

verus! {

/// Per-peer connection state.
#[derive(Debug, Clone, Copy)]
pub struct PeerInfo {
    /// Connection state.
    pub state: FdState,
    /// Peer address (in address field format).
    pub addr: u8,
    /// Last N(R) sent back to this peer.
    pub sent_nr: u8,
    /// Whether a REJ was already sent to this peer.
    pub sent_reject: bool,
    /// Bitmask of selective rejection requests.
    pub srej_req_mask: u8,
    /// I-frame sequence control for this peer.
    pub i_queue_control: IQueueControl,
    /// When the last I-frame was sent; `None` before the first one, when
    /// the I-frame timeout counts as passed.
    pub last_sent_i_ts: Option<Instant>,
    /// When the last frame of any type was sent; `None` before the first
    /// one, when the frame timeout counts as passed.
    pub last_sent_frame_ts: Option<Instant>,
    /// When the last frame was received.
    pub last_received_frame_ts: Instant,
    /// Whether keep-alive was confirmed.
    pub ka_confirmed: bool,
    /// Number of retries remaining.
    pub retries: u8,
    /// Event flags.
    pub events: u8,
}

impl PeerInfo {
    /// A disconnected peer with the given address that has sent nothing
    /// yet, so that the first timeout check fires at once; its receive
    /// timestamp lies a minute in the past (or at the current time when the
    /// clock cannot go back that far).
    pub fn new(addr: u8) -> (r: Self)
        ensures
            r.last_sent_i_ts is None,
            r.last_sent_frame_ts is None,
            r.state == FdState::Disconnected,
            r.addr == addr,
            r.sent_nr == 0,
            !r.sent_reject,
            r.srej_req_mask == 0,
            r.i_queue_control.tx_state.last_ns == 0,
            r.i_queue_control.tx_state.confirm_ns == 0,
            r.i_queue_control.tx_state.next_ns == 0,
            r.i_queue_control.rx_state.next_nr == 0,
            !r.ka_confirmed,
            r.retries == 0,
            r.events == 0,
    {
        let now = instant_now();
        let past = match instant_checked_sub_secs(now, 60) {
            Some(t) => t,
            None => now,
        };
        PeerInfo {
            state: FdState::Disconnected,
            addr,
            sent_nr: 0,
            sent_reject: false,
            srej_req_mask: 0,
            i_queue_control: IQueueControl::new(),
            last_sent_i_ts: None,
            last_sent_frame_ts: None,
            last_received_frame_ts: past,
            ka_confirmed: false,
            retries: 0,
            events: 0,
        }
    }

    /// Resets the connection: sequence numbers, rejection state; the
    /// receive and send timestamps become the current time.
    pub fn reset_connection(&mut self)
        ensures
            final(self).state == old(self).state,
            final(self).addr == old(self).addr,
            final(self).sent_nr == 0,
            !final(self).sent_reject,
            final(self).srej_req_mask == 0,
            final(self).i_queue_control.tx_state.last_ns == 0,
            final(self).i_queue_control.tx_state.confirm_ns == 0,
            final(self).i_queue_control.tx_state.next_ns == 0,
            final(self).i_queue_control.rx_state.next_nr == 0,
            final(self).last_sent_i_ts == old(self).last_sent_i_ts,
            final(self).last_sent_frame_ts is Some,
            final(self).ka_confirmed == old(self).ka_confirmed,
            final(self).retries == old(self).retries,
            final(self).events == old(self).events,
    {
        self.i_queue_control.reset();
        self.sent_nr = 0;
        self.sent_reject = false;
        self.srej_req_mask = 0;
        let now = instant_now();
        self.last_received_frame_ts = now;
        self.last_sent_frame_ts = Some(now);
    }
}

/// Whether an address field names the primary station (the C/R bit does
/// not count).
pub open spec fn primary_address(address: u8) -> bool {
    address & 0xFDu8 == 0x01u8
}

/// Address field of the `i`-th secondary station a primary station talks to.
pub open spec fn secondary_address(i: nat) -> u8 {
    (((i + 1) as u8) << 2u8) | 0x01u8
}

/// Index of the first peer from `i` on whose address field (C/R bit
/// cleared) is `a`; the number of peers when there is none.
pub open spec fn first_peer_with(peers: Seq<PeerInfo>, a: u8, i: nat) -> nat
    decreases peers.len() - i,
{
    if i >= peers.len() {
        peers.len()
    } else if peers[i as int].addr & 0xFDu8 == a {
        i
    } else {
        first_peer_with(peers, a, i + 1)
    }
}

/// Checks whether an address field names the primary station.
pub fn is_primary_address(address: u8) -> (r: bool)
    ensures
        r == primary_address(address),
{
    let mask: u8 = !HDLC_CR_BIT;
    let primary: u8 = HDLC_PRIMARY_ADDR | HDLC_E_BIT;
    assert(!0x02u8 == 0xFDu8) by (bit_vector);
    assert(0x00u8 | 0x01u8 == 0x01u8) by (bit_vector);
    (address & mask) == primary
}

/// Peer management of a station.
pub struct PeerManager {
    pub peers: Vec<PeerInfo>,
    pub local_addr: u8,
    pub next_peer: u8,
}

impl PeerManager {
    /// Creates the peers of a station.
    ///
    /// A primary station (`local_addr` names the primary) gets
    /// `max(peers_count, 1)` secondary peers with addresses
    /// `((i + 1) << 2) | E`; a secondary station gets one peer, the primary.
    pub fn new(local_addr: u8, peers_count: u8) -> (r: Self)
        ensures
            r.local_addr == local_addr,
            r.next_peer == 0,
            primary_address(local_addr) ==> {
                &&& r.peers@.len() == if peers_count == 0 {
                    1
                } else {
                    peers_count as int
                }
                &&& forall|i: int|
                    0 <= i < r.peers@.len() ==> r.peers@[i].addr == secondary_address(i as nat)
            },
            !primary_address(local_addr) ==> r.peers@.len() == 1 && r.peers@[0].addr == 0x01u8,
            forall|i: int|
                #![trigger r.peers@[i]]
                0 <= i < r.peers@.len() ==> {
                    let p = r.peers@[i];
                    &&& p.last_sent_i_ts is None
                    &&& p.last_sent_frame_ts is None
                    &&& p.state == FdState::Disconnected
                    &&& p.sent_nr == 0
                    &&& !p.sent_reject
                    &&& p.srej_req_mask == 0
                    &&& p.i_queue_control.tx_state.last_ns == 0
                    &&& p.i_queue_control.tx_state.confirm_ns == 0
                    &&& p.i_queue_control.tx_state.next_ns == 0
                    &&& p.i_queue_control.rx_state.next_nr == 0
                    &&& !p.ka_confirmed
                    &&& p.retries == 0
                    &&& p.events == 0
                },
    {
        let count: usize = if peers_count > 1 {
            peers_count as usize
        } else {
            1
        };
        let mut peers: Vec<PeerInfo> = Vec::with_capacity(count);
        if is_primary_address(local_addr) {
            let mut i: usize = 0;
            while i < count
                invariant
                    i <= count <= 255,
                    peers@.len() == i,
                    forall|j: int|
                        #![trigger peers@[j]]
                        0 <= j < i ==> {
                            let p = peers@[j];
                            &&& p.addr == secondary_address(j as nat)
                            &&& p.last_sent_i_ts is None
                            &&& p.last_sent_frame_ts is None
                            &&& p.state == FdState::Disconnected
                            &&& p.sent_nr == 0
                            &&& !p.sent_reject
                            &&& p.srej_req_mask == 0
                            &&& p.i_queue_control.tx_state.last_ns == 0
                            &&& p.i_queue_control.tx_state.confirm_ns == 0
                            &&& p.i_queue_control.tx_state.next_ns == 0
                            &&& p.i_queue_control.rx_state.next_nr == 0
                            &&& !p.ka_confirmed
                            &&& p.retries == 0
                            &&& p.events == 0
                        },
                decreases count - i,
            {
                let peer_addr = ((i as u8 + 1) << 2u8) | HDLC_E_BIT;
                peers.push(PeerInfo::new(peer_addr));
                i = i + 1;
            }
        } else {
            assert(0x00u8 | 0x01u8 == 0x01u8) by (bit_vector);
            peers.push(PeerInfo::new(HDLC_PRIMARY_ADDR | HDLC_E_BIT));
        }
        PeerManager { peers, local_addr, next_peer: 0 }
    }

    /// Whether the local station is the primary station.
    pub fn is_primary_station(&self) -> (r: bool)
        ensures
            r == primary_address(self.local_addr),
    {
        is_primary_address(self.local_addr)
    }

    /// Whether the local station is a secondary station.
    pub fn is_secondary_station(&self) -> (r: bool)
        ensures
            r == !primary_address(self.local_addr),
    {
        !self.is_primary_station()
    }

    /// The address field value used for frames exchanged with a peer.
    ///
    /// The address field always names the secondary station: a primary
    /// station uses the peer's address, a secondary station its own
    /// (the C/R bit cleared in both cases).
    pub fn peer_to_address_field(&self, peer: u8) -> (r: u8)
        requires
            primary_address(self.local_addr) ==> peer < self.peers@.len(),
        ensures
            r == self.address_field_of(peer as int),
    {
        let mask: u8 = !HDLC_CR_BIT;
        assert(!0x02u8 == 0xFDu8) by (bit_vector);
        if self.is_primary_station() {
            self.peers[peer as usize].addr & mask
        } else {
            self.local_addr & mask
        }
    }

    /// The address field value used for frames exchanged with peer `peer`.
    pub open spec fn address_field_of(&self, peer: int) -> u8 {
        if primary_address(self.local_addr) {
            self.peers@[peer].addr & 0xFDu8
        } else {
            self.local_addr & 0xFDu8
        }
    }

    /// The peer index an address field refers to, or
    /// `HDLC_INVALID_PEER_INDEX`.
    pub open spec fn peer_of_address(&self, address: u8) -> u8 {
        let a = address & 0xFDu8;
        if primary_address(self.local_addr) {
            let i = first_peer_with(self.peers@, a, 0);
            if i < self.peers@.len() {
                i as u8
            } else {
                HDLC_INVALID_PEER_INDEX
            }
        } else if a == self.local_addr & 0xFDu8 || primary_address(a) {
            0
        } else {
            HDLC_INVALID_PEER_INDEX
        }
    }

    /// Finds the peer an address field refers to: for a primary station the
    /// first peer with that address, for a secondary station the primary
    /// (peer 0) when the field names this station or the primary.
    /// Returns `HDLC_INVALID_PEER_INDEX` otherwise.
    pub fn address_field_to_peer(&self, address: u8) -> (r: u8)
        ensures
            r == self.peer_of_address(address),
    {
        let mask: u8 = !HDLC_CR_BIT;
        assert(!0x02u8 == 0xFDu8) by (bit_vector);
        let addr_no_cr = address & mask;
        if self.is_primary_station() {
            let mut i: usize = 0;
            while i < self.peers.len()
                invariant
                    i <= self.peers@.len(),
                    mask == 0xFDu8,
                    addr_no_cr == address & 0xFDu8,
                    primary_address(self.local_addr),
                    first_peer_with(self.peers@, addr_no_cr, 0) == first_peer_with(
                        self.peers@,
                        addr_no_cr,
                        i as nat,
                    ),
                decreases self.peers@.len() - i,
            {
                if (self.peers[i].addr & mask) == addr_no_cr {
                    #[verifier::truncate]
                    let r = i as u8;
                    return r;
                }
                i = i + 1;
            }
            HDLC_INVALID_PEER_INDEX
        } else {
            let our_addr = self.local_addr & mask;
            if addr_no_cr == our_addr || is_primary_address(addr_no_cr) {
                return 0;
            }
            HDLC_INVALID_PEER_INDEX
        }
    }

    /// Advances the round-robin peer (NRM mode) and returns it.
    pub fn switch_to_next_peer(&mut self) -> (r: u8)
        requires
            old(self).peers@.len() > 0,
        ensures
            r == ((old(self).next_peer + 1) % (old(self).peers@.len() as int)) as u8,
            final(self).next_peer == r,
            final(self).peers == old(self).peers,
            final(self).local_addr == old(self).local_addr,
    {
        self.next_peer = ((self.next_peer as usize + 1) % self.peers.len()) as u8;
        self.next_peer
    }
}

} // verus!
