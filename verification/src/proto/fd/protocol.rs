//! Full-Duplex protocol state machine: connection management, I/S/U frame
//! handling, sliding window and timeout-based retransmission.
//!
//! Events that the protocol reports to its user (received data, connects
//! and disconnects) are queued as [`FdEvent`]s in the order in which they
//! happen; the user retrieves them with [`TinyFd::pop_event`].
use vstd::prelude::*;
use std::time::Instant;
use crate::proto::crc::{HdlcCrcT, crc_field_size};
use crate::proto::error::{TinyError, TinyResult};
use crate::proto::hdlc::low_level_ll::{
    HdlcLl, HdlcLlInit, RxModel, RxState, rx_step, rx_run, ll_encode, splice, copy_bytes,
};
use crate::proto::fd::defines::{
    FdMode, FdState, FD_PRIMARY_ADDR, HDLC_E_BIT, HDLC_PRIMARY_ADDR, HDLC_INVALID_PEER_INDEX,
    HDLC_U_FRAME_BITS, HDLC_U_FRAME_MASK, HDLC_U_FRAME_TYPE_MASK, HDLC_U_FRAME_TYPE_SABM,
    HDLC_U_FRAME_TYPE_UA, HDLC_U_FRAME_TYPE_DISC, HDLC_U_FRAME_TYPE_DM, HDLC_U_FRAME_TYPE_SNRM,
    HDLC_I_FRAME_BITS, HDLC_I_FRAME_MASK, HDLC_S_FRAME_BITS, HDLC_S_FRAME_MASK,
    HDLC_S_FRAME_TYPE_MASK, HDLC_S_FRAME_TYPE_RR, HDLC_S_FRAME_TYPE_REJ, HDLC_S_FRAME_TYPE_SREJ,
    HDLC_P_BIT, HDLC_F_BIT, SEQ_BITS_MASK, FD_EVENT_TX_DATA_AVAILABLE,
    FD_EVENT_QUEUE_HAS_FREE_SLOTS, FD_EVENT_CAN_ACCEPT_I_FRAMES, U_QUEUE_MAX_SIZE,
};
use crate::proto::fd::frames::{FrameHeader, FrameEntry, QueuedFrameType, entry_bytes};
use crate::proto::fd::frame_queue::{
    FramesQueue, free_index_from, free_first_ns, first_ns_slot, first_match_slot, first_used_slot,
    has_free_slot, slot_without_address,
};
use crate::proto::fd::peers::{PeerInfo, PeerManager, primary_address, secondary_address, first_peer_with};
use crate::proto::fd::i_queue_control::{IQueueControl, IQueueControlSend, IQueueControlRecv, seq_next, seq_step};
use crate::proto::fd::clock::{instant_now, elapsed_millis};

verus! {

/// Configuration of the Full-Duplex protocol.
pub struct TinyFdConfig {
    /// Frame check kind.
    pub crc_type: HdlcCrcT,
    /// Transmit window size (1 to 7 frames).
    pub window_frames: u8,
    /// Maximum payload size per frame (0: 64).
    pub mtu: usize,
    /// Timeout in milliseconds for blocking sends (0: 1000).
    pub send_timeout: u16,
    /// Timeout in milliseconds before unacknowledged frames are sent again
    /// (0: 200).
    pub retry_timeout: u16,
    /// Number of retransmissions before giving up.
    pub retries: u8,
    /// Local station address (0: primary station).
    pub addr: u8,
    /// Number of remote peers (used by primary stations).
    pub peers_count: u8,
    /// Protocol mode.
    pub mode: FdMode,
    /// Receive buffer size in bytes.
    pub rx_buf_size: usize,
}

impl Default for TinyFdConfig {
    fn default() -> (r: Self)
        ensures
            r.crc_type == HdlcCrcT::HdlcCrc16,
            r.window_frames == 7,
            r.mtu == 64,
            r.send_timeout == 1000,
            r.retry_timeout == 200,
            r.retries == 2,
            r.addr == 0,
            r.peers_count == 1,
            r.mode == FdMode::Abm,
            r.rx_buf_size == 512,
    {
        TinyFdConfig {
            crc_type: HdlcCrcT::HdlcCrc16,
            window_frames: 7,
            mtu: 64,
            send_timeout: 1000,
            retry_timeout: 200,
            retries: 2,
            addr: 0,
            peers_count: 1,
            mode: FdMode::Abm,
            rx_buf_size: 512,
        }
    }
}

/// An event reported to the protocol's user.
pub enum FdEvent {
    /// A data frame was received from the peer with the given user address.
    Read { address: u8, payload: Vec<u8> },
    /// The peer with the given user address connected (`true`) or
    /// disconnected (`false`).
    Connect { address: u8, connected: bool },
    /// A data frame with this payload was handed to the link for the peer
    /// with the given user address.
    Sent { address: u8, payload: Vec<u8> },
}

/// Content of an [`FdEvent`].
pub enum FdNote {
    Read { address: u8, payload: Seq<u8> },
    Connect { address: u8, connected: bool },
    Sent { address: u8, payload: Seq<u8> },
}

impl View for FdEvent {
    type V = FdNote;

    open spec fn view(&self) -> FdNote {
        match self {
            FdEvent::Read { address, payload } => FdNote::Read { address: *address, payload: payload@ },
            FdEvent::Connect { address, connected } => FdNote::Connect {
                address: *address,
                connected: *connected,
            },
            FdEvent::Sent { address, payload } => FdNote::Sent { address: *address, payload: payload@ },
        }
    }
}

/// Per-peer protocol state (everything but the timestamps).
pub struct PeerModel {
    pub state: FdState,
    pub addr: u8,
    pub sent_nr: u8,
    pub sent_reject: bool,
    pub srej_req_mask: u8,
    pub ctrl: IQueueControl,
    pub ka_confirmed: bool,
    pub retries: u8,
    pub events: u8,
}

/// The protocol state of a peer.
pub open spec fn peer_model(p: PeerInfo) -> PeerModel {
    PeerModel {
        state: p.state,
        addr: p.addr,
        sent_nr: p.sent_nr,
        sent_reject: p.sent_reject,
        srej_req_mask: p.srej_req_mask,
        ctrl: p.i_queue_control,
        ka_confirmed: p.ka_confirmed,
        retries: p.retries,
        events: p.events,
    }
}

/// State of a Full-Duplex station.
pub struct FdModel {
    /// Local address field.
    pub local_addr: u8,
    /// Peers.
    pub peers: Seq<PeerModel>,
    /// I-frame queue slots and its free-slot search start.
    pub i_slots: Seq<Option<FrameEntry>>,
    pub i_lookup: nat,
    /// S/U-frame queue slots and its free-slot search start.
    pub s_slots: Seq<Option<FrameEntry>>,
    pub s_lookup: nat,
    /// Event bits.
    pub events: u8,
    /// Events reported to the user, not yet retrieved, oldest first.
    pub notes: Seq<FdNote>,
    /// Frame being transmitted by the framing layer and bytes handed out.
    pub tx_frame: Option<Seq<u8>>,
    pub tx_progress: nat,
    /// Receiver of the framing layer.
    pub rx: RxModel,
}

// ---------------------------------------------------------------------------
// Protocol rules

/// The address field used with peer `peer`.
pub open spec fn addr_field(m: FdModel, peer: int) -> u8 {
    if primary_address(m.local_addr) {
        m.peers[peer].addr & 0xFDu8
    } else {
        m.local_addr & 0xFDu8
    }
}

/// The address by which the user knows peer `peer`.
pub open spec fn user_address(m: FdModel, peer: int) -> u8 {
    if primary_address(m.local_addr) {
        addr_field(m, peer) >> 2u8
    } else {
        FD_PRIMARY_ADDR
    }
}

/// Index of the first peer from `i` on whose address field is `a`.
pub open spec fn first_model_peer_with(peers: Seq<PeerModel>, a: u8, i: nat) -> nat
    decreases peers.len() - i,
{
    if i >= peers.len() {
        peers.len()
    } else if peers[i as int].addr & 0xFDu8 == a {
        i
    } else {
        first_model_peer_with(peers, a, i + 1)
    }
}

/// The peer an incoming address field refers to, or
/// `HDLC_INVALID_PEER_INDEX`.
pub open spec fn peer_of(m: FdModel, address: u8) -> u8 {
    let a = address & 0xFDu8;
    if primary_address(m.local_addr) {
        let i = first_model_peer_with(m.peers, a, 0);
        if i < m.peers.len() {
            i as u8
        } else {
            HDLC_INVALID_PEER_INDEX
        }
    } else if a == m.local_addr & 0xFDu8 || primary_address(a) {
        0
    } else {
        HDLC_INVALID_PEER_INDEX
    }
}

/// `m` with peer `i` replaced.
pub open spec fn with_peer(m: FdModel, i: int, p: PeerModel) -> FdModel {
    FdModel { peers: m.peers.update(i, p), ..m }
}

/// Queues an S- or U-frame without payload; the flag tells whether a slot
/// was free (when not, nothing changes).
pub open spec fn put_us(m: FdModel, t: QueuedFrameType, h: FrameHeader) -> (FdModel, bool) {
    match free_index_from(m.s_slots, m.s_lookup as int, 0) {
        None => (m, false),
        Some(idx) => (
            FdModel {
                s_slots: m.s_slots.update(idx, Some(FrameEntry { frame_type: t, header: h, payload: Seq::empty() })),
                s_lookup: ((idx + 1) % (m.s_slots.len() as int)) as nat,
                events: m.events | FD_EVENT_TX_DATA_AVAILABLE,
                ..m
            },
            true,
        ),
    }
}

/// Sequence control with every number reset to 0.
pub open spec fn zero_ctrl() -> IQueueControl {
    IQueueControl {
        tx_state: IQueueControlSend { last_ns: 0, confirm_ns: 0, next_ns: 0 },
        rx_state: IQueueControlRecv { next_nr: 0 },
    }
}

/// A peer with its connection reset.
pub open spec fn reset_conn(p: PeerModel) -> PeerModel {
    PeerModel { sent_nr: 0, sent_reject: false, srej_req_mask: 0, ctrl: zero_ctrl(), ..p }
}

/// Peer `peer` becomes connected (no change when it already is).
pub open spec fn switch_connected(m: FdModel, retries: u8, peer: int) -> FdModel {
    let p = m.peers[peer];
    if p.state == FdState::Connected {
        m
    } else {
        let p1 = PeerModel {
            state: FdState::Connected,
            retries,
            events: p.events | FD_EVENT_CAN_ACCEPT_I_FRAMES,
            ..reset_conn(p)
        };
        let ev = m.events | FD_EVENT_TX_DATA_AVAILABLE;
        let ev2 = if has_free_slot(m.i_slots) {
            ev | FD_EVENT_QUEUE_HAS_FREE_SLOTS
        } else {
            ev
        };
        FdModel {
            peers: m.peers.update(peer, p1),
            events: ev2,
            notes: m.notes.push(FdNote::Connect { address: user_address(m, peer), connected: true }),
            ..m
        }
    }
}

/// Peer `peer` becomes disconnected (no change when it already is); its
/// queued I-frames are dropped.
pub open spec fn switch_disconnected(m: FdModel, peer: int) -> FdModel {
    let p = m.peers[peer];
    if p.state == FdState::Disconnected {
        m
    } else {
        let addr = addr_field(m, peer);
        let p1 = PeerModel {
            state: FdState::Disconnected,
            events: p.events & !FD_EVENT_CAN_ACCEPT_I_FRAMES,
            ..reset_conn(p)
        };
        FdModel {
            peers: m.peers.update(peer, p1),
            i_slots: m.i_slots.map_values(|o: Option<FrameEntry>| slot_without_address(o, addr)),
            notes: m.notes.push(FdNote::Connect { address: user_address(m, peer), connected: false }),
            ..m
        }
    }
}

/// The UA answer to peer `peer`.
pub open spec fn ua_header(m: FdModel, peer: int) -> FrameHeader {
    FrameHeader {
        address: addr_field(m, peer),
        control: HDLC_U_FRAME_TYPE_UA | HDLC_U_FRAME_BITS | HDLC_F_BIT,
    }
}

/// A U-frame with control byte `control` received from peer `peer`.
pub open spec fn on_u_frame(m: FdModel, retries: u8, peer: int, control: u8) -> FdModel {
    let u = control & HDLC_U_FRAME_TYPE_MASK;
    let state = m.peers[peer].state;
    if u == HDLC_U_FRAME_TYPE_SABM {
        switch_connected(put_us(m, QueuedFrameType::UFrame, ua_header(m, peer)).0, retries, peer)
    } else if u == HDLC_U_FRAME_TYPE_UA {
        if state == FdState::Connecting {
            switch_connected(m, retries, peer)
        } else if state == FdState::Disconnecting {
            switch_disconnected(m, peer)
        } else {
            m
        }
    } else if u == HDLC_U_FRAME_TYPE_DISC {
        switch_disconnected(put_us(m, QueuedFrameType::UFrame, ua_header(m, peer)).0, peer)
    } else if u == HDLC_U_FRAME_TYPE_DM {
        switch_disconnected(m, peer)
    } else if u == HDLC_U_FRAME_TYPE_SNRM {
        switch_connected(put_us(m, QueuedFrameType::UFrame, ua_header(m, peer)).0, retries, peer)
    } else {
        m
    }
}

/// Slots with the I-frames numbered from `start` on, `k` of them, freed.
pub open spec fn free_ns_range(slots: Seq<Option<FrameEntry>>, addr: u8, start: u8, k: nat) -> Seq<
    Option<FrameEntry>,
>
    decreases k,
{
    if k == 0 {
        slots
    } else {
        free_first_ns(free_ns_range(slots, addr, start, (k - 1) as nat), addr, seq_step(start, (k - 1) as nat))
    }
}

/// Number of frames confirmed when the next frame to confirm moves from
/// `c` to `nr`.
pub open spec fn seq_gap(c: u8, nr: u8) -> nat {
    ((nr + 8 - c) % 8) as nat
}

/// Peer `peer` confirms our frames up to `nr`: the confirmed I-frames leave
/// the queue.
pub open spec fn confirm_frames(m: FdModel, peer: int, nr: u8) -> FdModel {
    let p = m.peers[peer];
    let c0 = p.ctrl.tx_state.confirm_ns;
    let slots = free_ns_range(m.i_slots, addr_field(m, peer), c0, seq_gap(c0, nr));
    let p1 = PeerModel {
        ctrl: IQueueControl {
            tx_state: IQueueControlSend { confirm_ns: nr, ..p.ctrl.tx_state },
            ..p.ctrl
        },
        ..p
    };
    FdModel {
        peers: m.peers.update(peer, p1),
        i_slots: slots,
        events: if has_free_slot(slots) {
            m.events | FD_EVENT_QUEUE_HAS_FREE_SLOTS
        } else {
            m.events
        },
        ..m
    }
}

/// An I-frame with control byte `control` and `payload` received from peer
/// `peer`.
pub open spec fn on_i_frame(m: FdModel, peer: int, control: u8, payload: Seq<u8>) -> FdModel {
    let ns = (control >> 5u8) & 7u8;
    let nr = (control >> 1u8) & 7u8;
    let addr = addr_field(m, peer);
    let user = user_address(m, peer);
    let m1 = confirm_frames(m, peer, nr);
    let p = m1.peers[peer];
    let expected = p.ctrl.rx_state.next_nr;
    if ns != expected {
        if !p.sent_reject {
            let m2 = with_peer(m1, peer, PeerModel { sent_reject: true, ..p });
            put_us(
                m2,
                QueuedFrameType::SFrame,
                FrameHeader {
                    address: addr,
                    control: HDLC_S_FRAME_BITS | HDLC_S_FRAME_TYPE_REJ | (expected << 5u8) | HDLC_P_BIT,
                },
            ).0
        } else {
            m1
        }
    } else {
        let new_nr = seq_next(expected);
        let p2 = PeerModel {
            ctrl: IQueueControl { rx_state: IQueueControlRecv { next_nr: new_nr }, ..p.ctrl },
            sent_reject: false,
            sent_nr: new_nr,
            ..p
        };
        let m2 = FdModel {
            peers: m1.peers.update(peer, p2),
            notes: m1.notes.push(FdNote::Read { address: user, payload }),
            ..m1
        };
        put_us(
            m2,
            QueuedFrameType::SFrame,
            FrameHeader {
                address: addr,
                control: HDLC_S_FRAME_BITS | HDLC_S_FRAME_TYPE_RR | (new_nr << 5u8),
            },
        ).0
    }
}

/// An S-frame with control byte `control` received from peer `peer`.
pub open spec fn on_s_frame(m: FdModel, retries: u8, peer: int, control: u8) -> FdModel {
    let nr = (control >> 5u8) & 7u8;
    let s = control & HDLC_S_FRAME_TYPE_MASK;
    let m1 = confirm_frames(m, peer, nr);
    let p = m1.peers[peer];
    if s == HDLC_S_FRAME_TYPE_RR {
        with_peer(m1, peer, PeerModel { retries, ..p })
    } else if s == HDLC_S_FRAME_TYPE_REJ || s == HDLC_S_FRAME_TYPE_SREJ {
        let p1 = PeerModel {
            ctrl: IQueueControl {
                tx_state: IQueueControlSend { next_ns: nr, ..p.ctrl.tx_state },
                ..p.ctrl
            },
            ..p
        };
        FdModel {
            peers: m1.peers.update(peer, p1),
            events: m1.events | FD_EVENT_TX_DATA_AVAILABLE,
            ..m1
        }
    } else {
        m1
    }
}

/// A received frame (address, control, payload).
pub open spec fn on_frame(m: FdModel, retries: u8, frame: Seq<u8>) -> FdModel {
    if frame.len() < 2 {
        m
    } else {
        let address = frame[0];
        let control = frame[1];
        let peer = peer_of(m, address);
        if peer == HDLC_INVALID_PEER_INDEX {
            m
        } else {
            let i = peer as int;
            let m1 = with_peer(m, i, PeerModel { ka_confirmed: true, ..m.peers[i] });
            let state = m1.peers[i].state;
            if control & HDLC_U_FRAME_MASK == HDLC_U_FRAME_BITS {
                on_u_frame(m1, retries, i, control)
            } else if state != FdState::Connected && state != FdState::Disconnecting {
                put_us(
                    m1,
                    QueuedFrameType::UFrame,
                    FrameHeader {
                        address: addr_field(m1, i),
                        control: HDLC_U_FRAME_TYPE_DM | HDLC_U_FRAME_BITS,
                    },
                ).0
            } else if control & HDLC_I_FRAME_MASK == HDLC_I_FRAME_BITS {
                on_i_frame(m1, i, control, frame.skip(2))
            } else if control & HDLC_S_FRAME_MASK == HDLC_S_FRAME_BITS {
                on_s_frame(m1, retries, i, control)
            } else {
                m1
            }
        }
    }
}

/// Received frames processed in order.
pub open spec fn on_frames(m: FdModel, retries: u8, frames: Seq<Seq<u8>>) -> FdModel
    decreases frames.len(),
{
    if frames.len() == 0 {
        m
    } else {
        on_frame(on_frames(m, retries, frames.drop_last()), retries, frames.last())
    }
}

/// The receiver after all of `data`: every byte is processed, errors do not
/// stop it.
pub open spec fn rx_all(crc_type: HdlcCrcT, mtu: nat, s: RxModel, data: Seq<u8>) -> RxModel
    decreases data.len(),
{
    if data.len() == 0 {
        s
    } else {
        rx_all(crc_type, mtu, rx_step(crc_type, mtu, s, data[0]).0, data.drop_first())
    }
}

/// The SABM connection request to peer `peer`.
pub open spec fn sabm_header(m: FdModel, peer: int) -> FrameHeader {
    FrameHeader {
        address: addr_field(m, peer),
        control: HDLC_U_FRAME_TYPE_SABM | HDLC_U_FRAME_BITS | HDLC_P_BIT,
    }
}

/// Timeout handling of peer `i`: `frame_due` tells whether the retry
/// timeout passed since the last frame sent to it, `i_due` whether it
/// passed since the last I-frame sent to it.
pub open spec fn peer_timeout(
    m: FdModel,
    mode: FdMode,
    retries: u8,
    i: int,
    frame_due: bool,
    i_due: bool,
) -> FdModel {
    let p = m.peers[i];
    if p.state == FdState::Disconnected || p.state == FdState::Idle {
        if mode == FdMode::Abm && frame_due {
            let m1 = put_us(m, QueuedFrameType::UFrame, sabm_header(m, i)).0;
            with_peer(m1, i, PeerModel { state: FdState::Connecting, ..p })
        } else {
            m
        }
    } else if p.state == FdState::Connecting {
        if frame_due {
            if p.retries == 0 {
                with_peer(m, i, PeerModel { state: FdState::Disconnected, ..p })
            } else {
                let m1 = put_us(m, QueuedFrameType::UFrame, sabm_header(m, i)).0;
                with_peer(m1, i, PeerModel { retries: (p.retries - 1) as u8, ..p })
            }
        } else {
            m
        }
    } else if p.state == FdState::Connected {
        if p.ctrl.tx_state.confirm_ns != p.ctrl.tx_state.last_ns && i_due {
            if p.retries == 0 {
                switch_disconnected(m, i)
            } else {
                let p1 = PeerModel {
                    retries: (p.retries - 1) as u8,
                    ctrl: IQueueControl {
                        tx_state: IQueueControlSend {
                            next_ns: p.ctrl.tx_state.confirm_ns,
                            ..p.ctrl.tx_state
                        },
                        ..p.ctrl
                    },
                    ..p
                };
                FdModel {
                    peers: m.peers.update(i, p1),
                    events: m.events | FD_EVENT_TX_DATA_AVAILABLE,
                    ..m
                }
            }
        } else {
            m
        }
    } else {
        m
    }
}

/// The timing outcomes for elapsed milliseconds (since the last frame,
/// since the last I-frame): a timeout has passed when its elapsed time
/// reaches `retry_timeout`.
pub open spec fn due_flags(el: Seq<(u128, u128)>, retry_timeout: u16) -> Seq<(bool, bool)> {
    el.map_values(|x: (u128, u128)| (x.0 >= retry_timeout, x.1 >= retry_timeout))
}

/// Whether the elapsed readings fit the peers' timestamps, peer by peer:
/// a peer that has sent no frame (no I-frame) yet counts as having waited
/// without limit (`u128::MAX` milliseconds) since its last frame (I-frame).
pub open spec fn readings_match_stamps(
    stamps: Seq<(Option<Instant>, Option<Instant>, Instant)>,
    el: Seq<(u128, u128)>,
) -> bool {
    &&& el.len() == stamps.len()
    &&& forall|k: int|
        #![trigger el[k]]
        0 <= k < el.len() ==> (stamps[k].1 is None ==> el[k].0 == u128::MAX) && (stamps[k].0 is None
            ==> el[k].1 == u128::MAX)
}

/// Whether timeout handling of peer `i` with the given timing outcomes
/// decides anything ([`peer_timeout`]): a connection request in ABM, a
/// repeated request or giving it up, a resend or a disconnect.
pub open spec fn timeout_acts(m: FdModel, mode: FdMode, i: int, frame_due: bool, i_due: bool) -> bool {
    let p = m.peers[i];
    ||| (p.state == FdState::Disconnected || p.state == FdState::Idle) && mode == FdMode::Abm && frame_due
    ||| p.state == FdState::Connecting && frame_due
    ||| p.state == FdState::Connected && p.ctrl.tx_state.confirm_ns != p.ctrl.tx_state.last_ns && i_due
}

/// Timeout handling of the first `n` peers, in order, with the given
/// timing outcomes.
pub open spec fn timeouts(
    m: FdModel,
    mode: FdMode,
    retries: u8,
    due: Seq<(bool, bool)>,
    n: nat,
) -> FdModel
    decreases n,
{
    if n == 0 {
        m
    } else {
        let m1 = timeouts(m, mode, retries, due, (n - 1) as nat);
        peer_timeout(m1, mode, retries, n - 1, due[n - 1].0, due[n - 1].1)
    }
}

/// The frame that the protocol hands to the framing layer next, if any,
/// searching the I-frames of the peers from `i` on; a data frame handed
/// out is reported to the user as sent.
pub open spec fn gen_i_frame(m: FdModel, retries: u8, i: nat) -> (FdModel, Option<Seq<u8>>)
    decreases m.peers.len() - i,
{
    if i >= m.peers.len() {
        (m, None)
    } else {
        let p = m.peers[i as int];
        if p.state != FdState::Connected || p.ctrl.tx_state.next_ns == p.ctrl.tx_state.last_ns {
            gen_i_frame(m, retries, i + 1)
        } else {
            let ns = p.ctrl.tx_state.next_ns;
            let nr = p.ctrl.rx_state.next_nr;
            let addr = addr_field(m, i as int);
            let j = first_match_slot(m.i_slots, QueuedFrameType::IFrame, addr, ns, 0);
            if j >= m.i_slots.len() {
                gen_i_frame(m, retries, i + 1)
            } else {
                let e = m.i_slots[j as int]->0;
                let bytes = entry_bytes(e).update(1, (ns << 5u8) | (nr << 1u8) | HDLC_I_FRAME_BITS);
                let p1 = PeerModel {
                    ctrl: IQueueControl {
                        tx_state: IQueueControlSend { next_ns: seq_next(ns), ..p.ctrl.tx_state },
                        ..p.ctrl
                    },
                    retries,
                    ..p
                };
                (
                    FdModel {
                        peers: m.peers.update(i as int, p1),
                        tx_frame: Some(bytes),
                        tx_progress: 0,
                        notes: m.notes.push(
                            FdNote::Sent { address: user_address(m, i as int), payload: e.payload },
                        ),
                        ..m
                    },
                    Some(bytes),
                )
            }
        }
    }
}

/// The protocol hands its next frame to the (idle) framing layer: first
/// any queued S/U-frame, else the next I-frame of the first connected peer
/// that has one.
pub open spec fn generate(m: FdModel, retries: u8) -> FdModel {
    if m.tx_frame is Some {
        m
    } else {
        let j = first_used_slot(m.s_slots, 0);
        if j < m.s_slots.len() {
            let bytes = entry_bytes(m.s_slots[j as int]->0);
            FdModel {
                s_slots: m.s_slots.update(j as int, None),
                tx_frame: Some(bytes),
                tx_progress: 0,
                ..m
            }
        } else {
            gen_i_frame(m, retries, 0).0
        }
    }
}

/// The framing layer's transmitter state after handing out up to
/// `out_len` bytes: the frame is dropped once complete.
pub open spec fn tx_after(crc_type: HdlcCrcT, m: FdModel, out_len: nat) -> FdModel {
    match m.tx_frame {
        None => m,
        Some(d) => {
            let e = ll_encode(crc_type, d);
            let w = tx_written(crc_type, m, out_len);
            if m.tx_progress + w == e.len() {
                FdModel { tx_frame: None, tx_progress: 0, ..m }
            } else {
                FdModel { tx_progress: m.tx_progress + w, ..m }
            }
        },
    }
}

/// Number of bytes the framing layer hands out into a buffer of `out_len`.
pub open spec fn tx_written(crc_type: HdlcCrcT, m: FdModel, out_len: nat) -> nat {
    match m.tx_frame {
        None => 0,
        Some(d) => {
            let e = ll_encode(crc_type, d);
            if out_len < e.len() - m.tx_progress {
                out_len
            } else {
                (e.len() - m.tx_progress) as nat
            }
        },
    }
}

/// The bytes handed out into a buffer of `out_len`.
pub open spec fn tx_bytes(crc_type: HdlcCrcT, m: FdModel, out_len: nat) -> Seq<u8> {
    match m.tx_frame {
        None => Seq::empty(),
        Some(d) => ll_encode(crc_type, d).subrange(
            m.tx_progress as int,
            (m.tx_progress + tx_written(crc_type, m, out_len)) as int,
        ),
    }
}


/// The peer a packet for user address `address` goes to, or
/// `HDLC_INVALID_PEER_INDEX`: address 0 means the first peer.
pub open spec fn send_peer(m: FdModel, address: u8) -> u8 {
    if address == FD_PRIMARY_ADDR {
        0
    } else {
        peer_of(m, (address << 2u8) | 0x01u8)
    }
}

/// Queues an I-frame with payload `data` for peer `peer`; the flag tells
/// whether the window and the queue had room (when not, nothing changes).
pub open spec fn put_i(m: FdModel, peer: int, data: Seq<u8>) -> (FdModel, bool) {
    let p = m.peers[peer];
    let ns = p.ctrl.tx_state.last_ns;
    let nr = p.ctrl.rx_state.next_nr;
    if seq_next(ns) == p.ctrl.tx_state.confirm_ns {
        (m, false)
    } else {
        let h = FrameHeader {
            address: addr_field(m, peer),
            control: (ns << 5u8) | (nr << 1u8) | HDLC_I_FRAME_BITS,
        };
        match free_index_from(m.i_slots, m.i_lookup as int, 0) {
            None => (m, false),
            Some(idx) => {
                let p1 = PeerModel {
                    ctrl: IQueueControl {
                        tx_state: IQueueControlSend { last_ns: seq_next(ns), ..p.ctrl.tx_state },
                        ..p.ctrl
                    },
                    ..p
                };
                (
                    FdModel {
                        peers: m.peers.update(peer, p1),
                        i_slots: m.i_slots.update(
                            idx,
                            Some(FrameEntry { frame_type: QueuedFrameType::IFrame, header: h, payload: data }),
                        ),
                        i_lookup: ((idx + 1) % (m.i_slots.len() as int)) as nat,
                        ..m
                    },
                    true,
                )
            },
        }
    }
}

/// Event bits after an I-frame was queued.
pub open spec fn events_after_put_i(m: FdModel) -> u8 {
    let ev = m.events | FD_EVENT_TX_DATA_AVAILABLE;
    if has_free_slot(m.i_slots) {
        ev
    } else {
        ev & !FD_EVENT_QUEUE_HAS_FREE_SLOTS
    }
}

/// Full-Duplex protocol station.
pub struct TinyFd {
    hdlc: HdlcLl,
    peer_mgr: PeerManager,
    frames: FramesQueue,
    events: u8,
    mode: FdMode,
    send_timeout: u16,
    retry_timeout: u16,
    retries: u8,
    mtu: usize,
    notes: Vec<FdEvent>,
}


impl TinyFd {
    /// The station's protocol state.
    pub closed spec fn model(&self) -> FdModel {
        FdModel {
            local_addr: self.peer_mgr.local_addr,
            peers: self.peer_mgr.peers@.map_values(|p: PeerInfo| peer_model(p)),
            i_slots: self.frames.i_queue.slots(),
            i_lookup: self.frames.i_queue.lookup(),
            s_slots: self.frames.s_queue.slots(),
            s_lookup: self.frames.s_queue.lookup(),
            events: self.events,
            notes: self.notes@.map_values(|n: FdEvent| n@),
            tx_frame: self.hdlc.tx_frame(),
            tx_progress: self.hdlc.tx_progress(),
            rx: self.hdlc.rx_model(),
        }
    }

    /// The peers' timestamps: last I-frame sent, last frame sent, last frame
    /// received.
    pub closed spec fn stamps(&self) -> Seq<(Option<Instant>, Option<Instant>, Instant)> {
        self.peer_mgr.peers@.map_values(
            |p: PeerInfo| (p.last_sent_i_ts, p.last_sent_frame_ts, p.last_received_frame_ts),
        )
    }

    /// Frame check kind of the framing layer.
    pub closed spec fn crc_type(&self) -> HdlcCrcT {
        self.hdlc.crc_type()
    }

    /// Largest frame body the framing layer receives.
    pub closed spec fn phys_mtu(&self) -> nat {
        self.hdlc.phys_mtu()
    }

    /// Number of retransmissions a peer gets.
    pub closed spec fn retries(&self) -> u8 {
        self.retries
    }

    /// Protocol mode.
    pub closed spec fn mode(&self) -> FdMode {
        self.mode
    }

    /// Maximum payload size.
    pub closed spec fn mtu(&self) -> nat {
        self.mtu as nat
    }

    /// Retry timeout in milliseconds.
    pub closed spec fn retry_timeout(&self) -> u16 {
        self.retry_timeout
    }

    /// Send timeout in milliseconds.
    pub closed spec fn send_timeout(&self) -> u16 {
        self.send_timeout
    }

    /// Internal consistency of the station.
    pub closed spec fn wf(&self) -> bool {
        &&& self.hdlc.wf()
        &&& self.frames.i_queue.wf()
        &&& self.frames.s_queue.wf()
        &&& 1 <= self.peer_mgr.peers@.len() <= 255
        &&& forall|i: int|
            #![trigger self.peer_mgr.peers@[i]]
            0 <= i < self.peer_mgr.peers@.len() ==> self.peer_mgr.peers@[i].i_queue_control.wf()
        &&& forall|j: int|
            #![trigger self.frames.i_queue.slots()[j]]
            0 <= j < self.frames.i_queue.slots().len() ==> (self.frames.i_queue.slots()[j] matches Some(
                e,
            ) ==> e.payload.len() <= self.mtu)
        &&& forall|j: int|
            #![trigger self.frames.s_queue.slots()[j]]
            0 <= j < self.frames.s_queue.slots().len() ==> (self.frames.s_queue.slots()[j] matches Some(
                e,
            ) ==> e.payload.len() == 0)
        &&& self.mtu + 2 <= usize::MAX
    }

    /// Consistency of the station between calls: consistent, with no
    /// received frame or sent-frame notice left in the framing layer.
    pub closed spec fn inv(&self) -> bool {
        &&& self.wf()
        &&& self.hdlc.rx_model().frames.len() == 0
        &&& self.hdlc.sent_frames().len() == 0
    }

    /// Whether two stations have the same configuration values: frame
    /// check, receive limit, retries, mode, MTU, timeouts, number of peers
    /// and local address.
    pub open spec fn same_config(&self, other: &TinyFd) -> bool {
        &&& self.crc_type() == other.crc_type()
        &&& self.phys_mtu() == other.phys_mtu()
        &&& self.retries() == other.retries()
        &&& self.mode() == other.mode()
        &&& self.mtu() == other.mtu()
        &&& self.retry_timeout() == other.retry_timeout()
        &&& self.send_timeout() == other.send_timeout()
        &&& self.model().peers.len() == other.model().peers.len()
        &&& self.model().local_addr == other.model().local_addr
    }

    /// Creates a station.
    ///
    /// Fails with `InvalidData` when the window is not between 1 and 7
    /// frames or the receive buffer size is 0. Address 0 makes a primary
    /// station, any other a secondary station with address field
    /// `(addr << 2) | E`. Every peer starts disconnected.
    pub fn new(config: &TinyFdConfig) -> (r: TinyResult<Self>)
        requires
            config.mtu + 6 <= usize::MAX,
        ensures
            (config.window_frames == 0 || config.window_frames > 7 || config.rx_buf_size == 0)
                ==> r == Err::<TinyFd, TinyError>(TinyError::InvalidData),
            !(config.window_frames == 0 || config.window_frames > 7 || config.rx_buf_size == 0)
                ==> (r matches Ok(fd) && {
                let m = fd.model();
                let mtu: nat = if config.mtu > 0 {
                    config.mtu as nat
                } else {
                    64
                };
                &&& fd.inv()
                &&& fd.mtu() == mtu
                &&& fd.crc_type() == config.crc_type
                &&& fd.phys_mtu() == mtu + 2 + crc_field_size(config.crc_type)
                &&& fd.retries() == config.retries
                &&& fd.mode() == config.mode
                &&& fd.retry_timeout() == if config.retry_timeout == 0 {
                    200
                } else {
                    config.retry_timeout
                }
                &&& fd.send_timeout() == if config.send_timeout == 0 {
                    1000
                } else {
                    config.send_timeout
                }
                &&& m.local_addr == if config.addr == 0 {
                    0x01u8
                } else {
                    (config.addr << 2u8) | 0x01u8
                }
                &&& m.i_slots == Seq::new(config.window_frames as nat, |i: int| None::<FrameEntry>)
                &&& m.s_slots == Seq::new(4, |i: int| None::<FrameEntry>)
                &&& m.i_lookup == 0
                &&& m.s_lookup == 0
                &&& m.events == FD_EVENT_QUEUE_HAS_FREE_SLOTS
                &&& m.notes.len() == 0
                &&& m.tx_frame is None
                &&& m.rx == (RxModel {
                    phase: RxState::Start,
                    buf: Seq::empty(),
                    escape: false,
                    frames: Seq::empty(),
                })
                &&& (primary_address(m.local_addr) ==> m.peers.len() == if config.peers_count == 0 {
                    1
                } else {
                    config.peers_count as int
                })
                &&& (!primary_address(m.local_addr) ==> m.peers.len() == 1)
                &&& fd.stamps().len() == m.peers.len()
                &&& forall|i: int|
                    #![trigger fd.stamps()[i]]
                    0 <= i < m.peers.len() ==> fd.stamps()[i].0 is None && fd.stamps()[i].1 is None
                &&& forall|i: int|
                    #![trigger m.peers[i]]
                    0 <= i < m.peers.len() ==> m.peers[i] == (PeerModel {
                        state: FdState::Disconnected,
                        addr: if primary_address(m.local_addr) {
                            secondary_address(i as nat)
                        } else {
                            0x01u8
                        },
                        sent_nr: 0,
                        sent_reject: false,
                        srej_req_mask: 0,
                        ctrl: zero_ctrl(),
                        ka_confirmed: false,
                        retries: 0,
                        events: 0,
                    })
            }),
    {
        if config.window_frames == 0 || config.window_frames > 7 {
            return Err(TinyError::InvalidData);
        }
        let local_addr = if config.addr == 0 {
            HDLC_PRIMARY_ADDR | HDLC_E_BIT
        } else {
            (config.addr << 2u8) | HDLC_E_BIT
        };
        assert(0x00u8 | 0x01u8 == 0x01u8) by (bit_vector);
        let mtu = if config.mtu > 0 {
            config.mtu
        } else {
            64
        };
        let hdlc = match HdlcLl::new(
            &HdlcLlInit { crc_type: config.crc_type, mtu: mtu + 2, rx_buf_size: config.rx_buf_size },
        ) {
            Ok(h) => h,
            Err(e) => {
                return Err(e);
            },
        };
        let frames = FramesQueue::new(config.window_frames as usize, U_QUEUE_MAX_SIZE, mtu);
        let peer_mgr = PeerManager::new(local_addr, config.peers_count);
        let send_timeout = if config.send_timeout == 0 {
            1000
        } else {
            config.send_timeout
        };
        let retry_timeout = if config.retry_timeout == 0 {
            200
        } else {
            config.retry_timeout
        };
        let fd = TinyFd {
            hdlc,
            peer_mgr,
            frames,
            events: FD_EVENT_QUEUE_HAS_FREE_SLOTS,
            mode: config.mode,
            send_timeout,
            retry_timeout,
            retries: config.retries,
            mtu,
            notes: Vec::new(),
        };
        proof {
            assert forall|i: int|
                #![trigger fd.peer_mgr.peers@[i]]
                0 <= i < fd.peer_mgr.peers@.len() implies fd.peer_mgr.peers@[i].i_queue_control.wf() by {
            }
            let m = fd.model();
            assert(m.notes =~= Seq::<FdNote>::empty());
            assert forall|i: int|
                #![trigger m.peers[i]]
                0 <= i < m.peers.len() implies m.peers[i] == (PeerModel {
                    state: FdState::Disconnected,
                    addr: if primary_address(m.local_addr) {
                        secondary_address(i as nat)
                    } else {
                        0x01u8
                    },
                    sent_nr: 0,
                    sent_reject: false,
                    srej_req_mask: 0,
                    ctrl: zero_ctrl(),
                    ka_confirmed: false,
                    retries: 0,
                    events: 0,
                }) by {
                assert(m.peers[i] == peer_model(fd.peer_mgr.peers@[i]));
                if !primary_address(m.local_addr) {
                    assert(i == 0);
                }
            }
        }
        Ok(fd)
    }

    /// Retrieves the oldest event not yet retrieved.
    pub fn pop_event(&mut self) -> (r: Option<FdEvent>)
        requires
            old(self).inv(),
        ensures
            final(self).inv(),
            final(self).same_config(old(self)),
            old(self).model().notes.len() == 0 ==> r is None && final(self).model() == old(
                self,
            ).model(),
            old(self).model().notes.len() > 0 ==> (r matches Some(ev) && ev@ == old(
                self,
            ).model().notes[0] && final(self).model() == (FdModel {
                notes: old(self).model().notes.drop_first(),
                ..old(self).model()
            })),
    {
        if self.notes.len() == 0 {
            return None;
        }
        let ghost before = self.notes@;
        let ev = self.notes.remove(0);
        assert(self.notes@.map_values(|n: FdEvent| n@) =~= before.map_values(|n: FdEvent| n@).drop_first());
        Some(ev)
    }

    /// Event bits of the station.
    pub fn events(&self) -> (r: u8)
        ensures
            r == self.model().events,
    {
        self.events
    }

    /// Connection status of the first peer: `Ok` when connected, `Failed`
    /// otherwise.
    pub fn get_status(&self) -> (r: TinyResult<()>)
        requires
            self.inv(),
        ensures
            self.model().peers[0].state == FdState::Connected ==> r is Ok,
            self.model().peers[0].state != FdState::Connected ==> r == Err::<(), TinyError>(
                TinyError::Failed,
            ),
    {
        if self.peer_mgr.peers.len() == 0 {
            return Err(TinyError::InvalidData);
        }
        assert(self.model().peers[0] == peer_model(self.peer_mgr.peers@[0]));
        match self.peer_mgr.peers[0].state {
            FdState::Connected => Ok(()),
            _ => Err(TinyError::Failed),
        }
    }

    /// Maximum payload size.
    pub fn get_mtu(&self) -> (r: usize)
        ensures
            r == self.mtu(),
    {
        self.mtu
    }

    /// Queues an S- or U-frame without payload; `Busy` (nothing changed)
    /// when the service queue is full.
    fn put_u_s_frame(&mut self, frame_type: QueuedFrameType, header: FrameHeader) -> (r: TinyResult<()>)
        requires
            old(self).wf(),
        ensures
            final(self).wf(),
            final(self).same_config(old(self)),
            final(self).hdlc == old(self).hdlc,
            (final(self).model(), r is Ok) == put_us(old(self).model(), frame_type, header),
            r is Err ==> r == Err::<(), TinyError>(TinyError::Busy),
            final(self).peer_mgr == old(self).peer_mgr,
    {
        let empty: Vec<u8> = Vec::new();
        let slice = empty.as_slice();
        assert(slice@.len() == 0);
        let ghost s0 = self.frames.s_queue.slots();
        match self.frames.s_queue.allocate(frame_type, header, slice) {
            Some(idx) => {
                self.events = self.events | FD_EVENT_TX_DATA_AVAILABLE;
                proof {
                    let s1 = self.frames.s_queue.slots();
                    assert forall|j: int|
                        #![trigger s1[j]]
                        0 <= j < s1.len() implies (s1[j] matches Some(e) ==> e.payload.len() == 0) by {
                        if j != idx {
                            assert(s1[j] == s0[j]);
                        }
                    }
                }
                Ok(())
            },
            None => Err(TinyError::Busy),
        }
    }

    /// Queues a disconnect request (DISC) to the first peer, which becomes
    /// `Disconnecting`; `Busy` (nothing changed) when the service queue is
    /// full.
    pub fn disconnect(&mut self) -> (r: TinyResult<()>)
        requires
            old(self).inv(),
        ensures
            final(self).inv(),
            final(self).same_config(old(self)),
            ({
                let m = old(self).model();
                let h = FrameHeader {
                    address: addr_field(m, 0),
                    control: HDLC_U_FRAME_TYPE_DISC | HDLC_U_FRAME_BITS | HDLC_P_BIT,
                };
                let (m1, ok) = put_us(m, QueuedFrameType::UFrame, h);
                &&& ok ==> r is Ok && final(self).model() == with_peer(
                    m1,
                    0,
                    PeerModel { state: FdState::Disconnecting, ..m1.peers[0] },
                )
                &&& !ok ==> r == Err::<(), TinyError>(TinyError::Busy) && final(self).model() == m
            }),
    {
        let peer = 0u8;
        let address = self.peer_mgr.peer_to_address_field(peer);
        proof {
            assert(self.model().peers[0] == peer_model(self.peer_mgr.peers@[0]));
        }
        let header = FrameHeader {
            address,
            control: HDLC_U_FRAME_TYPE_DISC | HDLC_U_FRAME_BITS | HDLC_P_BIT,
        };
        match self.put_u_s_frame(QueuedFrameType::UFrame, header) {
            Ok(()) => {},
            Err(e) => {
                return Err(e);
            },
        }
        let mut p = self.peer_mgr.peers[0];
        p.state = FdState::Disconnecting;
        self.set_peer(0, p);
        Ok(())
    }

    /// Replaces peer `i`.
    fn set_peer(&mut self, i: usize, p: PeerInfo)
        requires
            old(self).wf(),
            i < old(self).peer_mgr.peers@.len(),
            p.i_queue_control.wf(),
        ensures
            final(self).wf(),
            final(self).same_config(old(self)),
            final(self).hdlc == old(self).hdlc,
            final(self).model() == with_peer(old(self).model(), i as int, peer_model(p)),
            final(self).peer_mgr.peers@ == old(self).peer_mgr.peers@.update(i as int, p),
    {
        let ghost before = self.peer_mgr.peers@;
        self.peer_mgr.peers.set(i, p);
        proof {
            assert(self.peer_mgr.peers@.map_values(|q: PeerInfo| peer_model(q)) =~= before.map_values(
                |q: PeerInfo| peer_model(q),
            ).update(i as int, peer_model(p)));
            assert forall|k: int|
                #![trigger self.peer_mgr.peers@[k]]
                0 <= k < self.peer_mgr.peers@.len() implies self.peer_mgr.peers@[k].i_queue_control.wf() by {
                if k != i {
                    assert(self.peer_mgr.peers@[k] == before[k]);
                }
            }
        }
    }
}


proof fn lemma_first_peer_same(pis: Seq<PeerInfo>, a: u8, i: nat)
    ensures
        first_peer_with(pis, a, i) == first_model_peer_with(
            pis.map_values(|p: PeerInfo| peer_model(p)),
            a,
            i,
        ),
    decreases pis.len() - i,
{
    if i < pis.len() {
        lemma_first_peer_same(pis, a, i + 1);
    }
}

proof fn lemma_first_peer_bound(peers: Seq<PeerModel>, a: u8, i: nat)
    requires
        i <= peers.len(),
    ensures
        i <= first_model_peer_with(peers, a, i) <= peers.len(),
    decreases peers.len() - i,
{
    if i < peers.len() {
        lemma_first_peer_bound(peers, a, i + 1);
    }
}

proof fn lemma_seq_step_mod(c0: u8, k: nat)
    requires
        c0 < 8,
    ensures
        seq_step(c0, k) == (c0 + k) % 8,
    decreases k,
{
    if k > 0 {
        lemma_seq_step_mod(c0, (k - 1) as nat);
        let a = c0 + k - 1;
        assert(((a % 8) + 1) % 8 == (a + 1) % 8) by {
            vstd::arithmetic::div_mod::lemma_add_mod_noop(a, 1, 8);
            vstd::arithmetic::div_mod::lemma_small_mod(1, 8);
            vstd::arithmetic::div_mod::lemma_mod_bound(a, 8);
        }
    }
}

impl TinyFd {
    /// The address field used with peer `peer`.
    fn address_field(&self, peer: u8) -> (r: u8)
        requires
            self.wf(),
            peer < self.peer_mgr.peers@.len(),
        ensures
            r == addr_field(self.model(), peer as int),
    {
        proof {
            assert(self.model().peers[peer as int] == peer_model(self.peer_mgr.peers@[peer as int]));
        }
        self.peer_mgr.peer_to_address_field(peer)
    }

    /// The address by which the user knows peer `peer`.
    fn user_address_of(&self, peer: u8) -> (r: u8)
        requires
            self.wf(),
            peer < self.peer_mgr.peers@.len(),
        ensures
            r == user_address(self.model(), peer as int),
    {
        let a = self.address_field(peer);
        if self.peer_mgr.is_primary_station() {
            a >> 2u8
        } else {
            FD_PRIMARY_ADDR
        }
    }

    /// Reports an event to the user.
    fn push_note(&mut self, ev: FdEvent)
        requires
            old(self).wf(),
        ensures
            final(self).wf(),
            final(self).same_config(old(self)),
            final(self).hdlc == old(self).hdlc,
            final(self).model() == (FdModel {
                notes: old(self).model().notes.push(ev@),
                ..old(self).model()
            }),
            final(self).peer_mgr == old(self).peer_mgr,
    {
        let ghost before = self.notes@;
        self.notes.push(ev);
        assert(self.notes@.map_values(|n: FdEvent| n@) =~= before.map_values(|n: FdEvent| n@).push(
            ev@,
        ));
    }

    /// Peer `peer` becomes connected.
    fn switch_to_connected(&mut self, peer: u8)
        requires
            old(self).wf(),
            peer < old(self).peer_mgr.peers@.len(),
        ensures
            final(self).wf(),
            final(self).same_config(old(self)),
            final(self).hdlc == old(self).hdlc,
            final(self).model() == switch_connected(old(self).model(), old(self).retries(), peer as int),
    {
        let user = self.user_address_of(peer);
        let mut p = self.peer_mgr.peers[peer as usize];
        proof {
            assert(self.model().peers[peer as int] == peer_model(p));
        }
        if p.state != FdState::Connected {
            p.state = FdState::Connected;
            p.reset_connection();
            p.retries = self.retries;
            p.last_sent_i_ts = Some(instant_now());
            p.events = p.events | FD_EVENT_CAN_ACCEPT_I_FRAMES;
            self.set_peer(peer as usize, p);
            self.events = self.events | FD_EVENT_TX_DATA_AVAILABLE;
            if self.frames.i_queue.has_free_slots() {
                self.events = self.events | FD_EVENT_QUEUE_HAS_FREE_SLOTS;
            }
            self.push_note(FdEvent::Connect { address: user, connected: true });
        }
    }

    /// Peer `peer` becomes disconnected; its queued I-frames are dropped.
    fn switch_to_disconnected(&mut self, peer: u8)
        requires
            old(self).wf(),
            peer < old(self).peer_mgr.peers@.len(),
        ensures
            final(self).wf(),
            final(self).same_config(old(self)),
            final(self).hdlc == old(self).hdlc,
            final(self).model() == switch_disconnected(old(self).model(), peer as int),
            final(self).peer_mgr.peers@.len() == old(self).peer_mgr.peers@.len(),
            forall|j: int|
                #![trigger final(self).peer_mgr.peers@[j]]
                0 <= j < old(self).peer_mgr.peers@.len() && j != peer ==> final(self).peer_mgr.peers@[j]
                    == old(self).peer_mgr.peers@[j],
    {
        let addr = self.address_field(peer);
        let user = self.user_address_of(peer);
        let mut p = self.peer_mgr.peers[peer as usize];
        proof {
            assert(self.model().peers[peer as int] == peer_model(p));
        }
        if p.state != FdState::Disconnected {
            p.state = FdState::Disconnected;
            p.reset_connection();
            p.events = p.events & !FD_EVENT_CAN_ACCEPT_I_FRAMES;
            self.set_peer(peer as usize, p);
            let ghost s0 = self.frames.i_queue.slots();
            self.frames.i_queue.reset_for(addr);
            proof {
                let s1 = self.frames.i_queue.slots();
                assert forall|j: int|
                    #![trigger s1[j]]
                    0 <= j < s1.len() implies (s1[j] matches Some(e) ==> e.payload.len() <= self.mtu) by {
                    assert(s1[j] == slot_without_address(s0[j], addr));
                }
            }
            self.push_note(FdEvent::Connect { address: user, connected: false });
        }
    }
}


impl TinyFd {
    /// Peer `peer` confirms our frames up to `nr`.
    fn confirm_frames(&mut self, peer: u8, nr: u8)
        requires
            old(self).wf(),
            peer < old(self).peer_mgr.peers@.len(),
            nr < 8,
        ensures
            final(self).wf(),
            final(self).same_config(old(self)),
            final(self).hdlc == old(self).hdlc,
            final(self).model() == confirm_frames(old(self).model(), peer as int, nr),
    {
        let addr = self.address_field(peer);
        let mut p = self.peer_mgr.peers[peer as usize];
        let ghost m0 = self.model();
        proof {
            assert(m0.peers[peer as int] == peer_model(p));
        }
        let c0 = p.i_queue_control.get_next_frame_to_confirm();
        let confirm_all = |_s: u8| -> (b: bool)
            ensures
                b,
            { true };
        p.i_queue_control.confirm_sent_frames(nr, confirm_all);
        assert(p.i_queue_control.tx_state.confirm_ns == nr);
        self.set_peer(peer as usize, p);
        let ghost m1 = self.model();
        let ghost slots0 = self.frames.i_queue.slots();
        let ghost gap = seq_gap(c0, nr);
        let mut s: u8 = c0;
        let ghost mut k: nat = 0;
        proof {
            lemma_seq_step_mod(c0, 0);
        }
        while s != nr
            invariant
                self.wf(),
                self.same_config(old(self)),
                self.hdlc == old(self).hdlc,
                c0 < 8,
                nr < 8,
                gap == seq_gap(c0, nr),
                k <= gap,
                s == seq_step(c0, k),
                s == (c0 + k) % 8,
                self.frames.i_queue.slots() == free_ns_range(slots0, addr, c0, k),
                self.model() == (FdModel { i_slots: free_ns_range(slots0, addr, c0, k), ..m1 }),
            decreases gap - k,
        {
            let ghost sl = self.frames.i_queue.slots();
            self.frames.i_queue.free_by_ns(addr, s);
            proof {
                let sl1 = self.frames.i_queue.slots();
                assert forall|j: int|
                    #![trigger sl1[j]]
                    0 <= j < sl1.len() implies (sl1[j] matches Some(e) ==> e.payload.len() <= self.mtu) by {
                    let i = first_ns_slot(sl, addr, s, 0);
                    if i < sl.len() && j == i {
                    } else {
                        assert(sl1[j] == sl[j]);
                    }
                }
            }
            let ghost s_old = s;
            s = (s + 1) & SEQ_BITS_MASK;
            proof {
                assert(((s_old + 1) as u8) & 7u8 == (s_old + 1) % 8) by (bit_vector)
                    requires
                        s_old < 8u8,
                ;
                k = k + 1;
                lemma_seq_step_mod(c0, k);
            }
        }
        if self.frames.i_queue.has_free_slots() {
            self.events = self.events | FD_EVENT_QUEUE_HAS_FREE_SLOTS;
        }
    }
}


impl TinyFd {
    /// A U-frame received from peer `peer`.
    fn on_u_frame_received(&mut self, peer: u8, control: u8)
        requires
            old(self).wf(),
            peer < old(self).peer_mgr.peers@.len(),
        ensures
            final(self).wf(),
            final(self).same_config(old(self)),
            final(self).hdlc == old(self).hdlc,
            final(self).model() == on_u_frame(old(self).model(), old(self).retries(), peer as int, control),
    {
        let u_type = control & HDLC_U_FRAME_TYPE_MASK;
        let state = self.peer_mgr.peers[peer as usize].state;
        proof {
            assert(self.model().peers[peer as int] == peer_model(self.peer_mgr.peers@[peer as int]));
        }
        if u_type == HDLC_U_FRAME_TYPE_SABM || u_type == HDLC_U_FRAME_TYPE_SNRM {
            let addr = self.address_field(peer);
            let header = FrameHeader {
                address: addr,
                control: HDLC_U_FRAME_TYPE_UA | HDLC_U_FRAME_BITS | HDLC_F_BIT,
            };
            let _ = self.put_u_s_frame(QueuedFrameType::UFrame, header);
            self.switch_to_connected(peer);
        } else if u_type == HDLC_U_FRAME_TYPE_UA {
            if state == FdState::Connecting {
                self.switch_to_connected(peer);
            } else if state == FdState::Disconnecting {
                self.switch_to_disconnected(peer);
            }
        } else if u_type == HDLC_U_FRAME_TYPE_DISC {
            let addr = self.address_field(peer);
            let header = FrameHeader {
                address: addr,
                control: HDLC_U_FRAME_TYPE_UA | HDLC_U_FRAME_BITS | HDLC_F_BIT,
            };
            let _ = self.put_u_s_frame(QueuedFrameType::UFrame, header);
            self.switch_to_disconnected(peer);
        } else if u_type == HDLC_U_FRAME_TYPE_DM {
            self.switch_to_disconnected(peer);
        }
    }

    /// An I-frame (address, control, payload) received from peer `peer`.
    fn on_i_frame_received(&mut self, peer: u8, data: &[u8])
        requires
            old(self).wf(),
            peer < old(self).peer_mgr.peers@.len(),
            data@.len() >= 2,
        ensures
            final(self).wf(),
            final(self).same_config(old(self)),
            final(self).hdlc == old(self).hdlc,
            final(self).model() == on_i_frame(
                old(self).model(),
                peer as int,
                data@[1],
                data@.skip(2),
            ),
    {
        let control = data[1];
        let ns = (control >> 5u8) & SEQ_BITS_MASK;
        let nr = (control >> 1u8) & SEQ_BITS_MASK;
        assert((control >> 1u8) & 7u8 < 8u8) by (bit_vector);
        let payload = &data[2..data.len()];
        assert(payload@ == data@.skip(2));
        let addr = self.address_field(peer);
        let user = self.user_address_of(peer);
        self.confirm_frames(peer, nr);
        let mut p = self.peer_mgr.peers[peer as usize];
        proof {
            assert(self.model().peers[peer as int] == peer_model(p));
        }
        let expected = p.i_queue_control.get_next_frame_to_receive();
        if ns != expected {
            if !p.sent_reject {
                p.sent_reject = true;
                self.set_peer(peer as usize, p);
                let header = FrameHeader {
                    address: addr,
                    control: HDLC_S_FRAME_BITS | HDLC_S_FRAME_TYPE_REJ | (expected << 5u8) | HDLC_P_BIT,
                };
                let _ = self.put_u_s_frame(QueuedFrameType::SFrame, header);
            }
            return ;
        }
        p.i_queue_control.move_to_next_frame_to_receive();
        p.sent_reject = false;
        let new_nr = p.i_queue_control.get_next_frame_to_receive();
        p.sent_nr = new_nr;
        self.set_peer(peer as usize, p);
        self.push_note(FdEvent::Read { address: user, payload: copy_bytes(payload) });
        let header = FrameHeader {
            address: addr,
            control: HDLC_S_FRAME_BITS | HDLC_S_FRAME_TYPE_RR | (new_nr << 5u8),
        };
        let _ = self.put_u_s_frame(QueuedFrameType::SFrame, header);
    }

    /// An S-frame received from peer `peer`.
    fn on_s_frame_received(&mut self, peer: u8, control: u8)
        requires
            old(self).wf(),
            peer < old(self).peer_mgr.peers@.len(),
        ensures
            final(self).wf(),
            final(self).same_config(old(self)),
            final(self).hdlc == old(self).hdlc,
            final(self).model() == on_s_frame(old(self).model(), old(self).retries(), peer as int, control),
    {
        let nr = (control >> 5u8) & SEQ_BITS_MASK;
        assert((control >> 5u8) & 7u8 < 8u8) by (bit_vector);
        let s_type = control & HDLC_S_FRAME_TYPE_MASK;
        self.confirm_frames(peer, nr);
        let mut p = self.peer_mgr.peers[peer as usize];
        proof {
            assert(self.model().peers[peer as int] == peer_model(p));
        }
        if s_type == HDLC_S_FRAME_TYPE_RR {
            p.retries = self.retries;
            self.set_peer(peer as usize, p);
        } else if s_type == HDLC_S_FRAME_TYPE_REJ || s_type == HDLC_S_FRAME_TYPE_SREJ {
            let resend_all = |_s: u8| -> (b: bool)
                ensures
                    b,
                { true };
            p.i_queue_control.retransmit_frame(nr, resend_all);
            self.set_peer(peer as usize, p);
            self.events = self.events | FD_EVENT_TX_DATA_AVAILABLE;
        }
    }

    /// A frame (address, control, payload) received from the link.
    fn on_frame_received(&mut self, data: &[u8])
        requires
            old(self).wf(),
        ensures
            final(self).wf(),
            final(self).same_config(old(self)),
            final(self).hdlc == old(self).hdlc,
            final(self).model() == on_frame(old(self).model(), old(self).retries(), data@),
    {
        if data.len() < 2 {
            return ;
        }
        let address = data[0];
        let control = data[1];
        let peer = self.peer_mgr.address_field_to_peer(address);
        proof {
            lemma_first_peer_same(self.peer_mgr.peers@, address & 0xFDu8, 0);
            lemma_first_peer_bound(self.model().peers, address & 0xFDu8, 0);
        }
        if peer == HDLC_INVALID_PEER_INDEX {
            return ;
        }
        let mut p = self.peer_mgr.peers[peer as usize];
        p.last_received_frame_ts = instant_now();
        p.ka_confirmed = true;
        self.set_peer(peer as usize, p);
        if (control & HDLC_U_FRAME_MASK) == HDLC_U_FRAME_BITS {
            self.on_u_frame_received(peer, control);
        } else {
            let state = self.peer_mgr.peers[peer as usize].state;
            proof {
                assert(self.model().peers[peer as int] == peer_model(self.peer_mgr.peers@[peer as int]));
            }
            if state != FdState::Connected && state != FdState::Disconnecting {
                let addr = self.address_field(peer);
                let header = FrameHeader {
                    address: addr,
                    control: HDLC_U_FRAME_TYPE_DM | HDLC_U_FRAME_BITS,
                };
                let _ = self.put_u_s_frame(QueuedFrameType::UFrame, header);
            } else if (control & HDLC_I_FRAME_MASK) == HDLC_I_FRAME_BITS {
                self.on_i_frame_received(peer, data);
            } else if (control & HDLC_S_FRAME_MASK) == HDLC_S_FRAME_BITS {
                self.on_s_frame_received(peer, control);
            }
        }
    }
}


/// `m` with the receiver state replaced.
pub open spec fn with_rx(m: FdModel, x: RxModel) -> FdModel {
    FdModel { rx: x, ..m }
}

proof fn lemma_put_us_rx(m: FdModel, t: QueuedFrameType, h: FrameHeader, x: RxModel)
    ensures
        put_us(with_rx(m, x), t, h) == (with_rx(put_us(m, t, h).0, x), put_us(m, t, h).1),
{
}

proof fn lemma_switch_rx(m: FdModel, retries: u8, peer: int, x: RxModel)
    ensures
        switch_connected(with_rx(m, x), retries, peer) == with_rx(switch_connected(m, retries, peer), x),
        switch_disconnected(with_rx(m, x), peer) == with_rx(switch_disconnected(m, peer), x),
{
    assert(addr_field(with_rx(m, x), peer) == addr_field(m, peer));
    assert(user_address(with_rx(m, x), peer) == user_address(m, peer));
}

proof fn lemma_confirm_rx(m: FdModel, peer: int, nr: u8, x: RxModel)
    ensures
        confirm_frames(with_rx(m, x), peer, nr) == with_rx(confirm_frames(m, peer, nr), x),
{
    assert(addr_field(with_rx(m, x), peer) == addr_field(m, peer));
}

proof fn lemma_on_u_rx(m: FdModel, retries: u8, peer: int, control: u8, x: RxModel)
    ensures
        on_u_frame(with_rx(m, x), retries, peer, control) == with_rx(on_u_frame(m, retries, peer, control), x),
{
    let h = ua_header(m, peer);
    assert(ua_header(with_rx(m, x), peer) == h);
    lemma_put_us_rx(m, QueuedFrameType::UFrame, h, x);
    lemma_switch_rx(m, retries, peer, x);
    lemma_switch_rx(put_us(m, QueuedFrameType::UFrame, h).0, retries, peer, x);
}

proof fn lemma_on_i_rx(m: FdModel, peer: int, control: u8, payload: Seq<u8>, x: RxModel)
    ensures
        on_i_frame(with_rx(m, x), peer, control, payload) == with_rx(on_i_frame(m, peer, control, payload), x),
{
    let nr = (control >> 1u8) & 7u8;
    lemma_confirm_rx(m, peer, nr, x);
    let m1 = confirm_frames(m, peer, nr);
    assert(addr_field(with_rx(m, x), peer) == addr_field(m, peer));
    assert(user_address(with_rx(m, x), peer) == user_address(m, peer));
    let p = m1.peers[peer];
    let m2 = with_peer(m1, peer, PeerModel { sent_reject: true, ..p });
    assert(with_peer(with_rx(m1, x), peer, PeerModel { sent_reject: true, ..p }) == with_rx(m2, x));
    let addr = addr_field(m, peer);
    let expected = p.ctrl.rx_state.next_nr;
    lemma_put_us_rx(
        m2,
        QueuedFrameType::SFrame,
        FrameHeader {
            address: addr,
            control: HDLC_S_FRAME_BITS | HDLC_S_FRAME_TYPE_REJ | (expected << 5u8) | HDLC_P_BIT,
        },
        x,
    );
    let new_nr = seq_next(expected);
    let p2 = PeerModel {
        ctrl: IQueueControl { rx_state: IQueueControlRecv { next_nr: new_nr }, ..p.ctrl },
        sent_reject: false,
        sent_nr: new_nr,
        ..p
    };
    let m3 = FdModel {
        peers: m1.peers.update(peer, p2),
        notes: m1.notes.push(FdNote::Read { address: user_address(m, peer), payload }),
        ..m1
    };
    lemma_put_us_rx(
        m3,
        QueuedFrameType::SFrame,
        FrameHeader {
            address: addr,
            control: HDLC_S_FRAME_BITS | HDLC_S_FRAME_TYPE_RR | (new_nr << 5u8),
        },
        x,
    );
}

proof fn lemma_on_s_rx(m: FdModel, retries: u8, peer: int, control: u8, x: RxModel)
    ensures
        on_s_frame(with_rx(m, x), retries, peer, control) == with_rx(on_s_frame(m, retries, peer, control), x),
{
    let nr = (control >> 5u8) & 7u8;
    lemma_confirm_rx(m, peer, nr, x);
}

/// Processing a frame neither reads nor changes the receiver state.
proof fn lemma_on_frame_rx(m: FdModel, retries: u8, f: Seq<u8>, x: RxModel)
    ensures
        on_frame(with_rx(m, x), retries, f) == with_rx(on_frame(m, retries, f), x),
{
    if f.len() >= 2 {
        let address = f[0];
        let control = f[1];
        let peer = peer_of(m, address);
        assert(peer_of(with_rx(m, x), address) == peer);
        if peer != HDLC_INVALID_PEER_INDEX {
            let i = peer as int;
            let m1 = with_peer(m, i, PeerModel { ka_confirmed: true, ..m.peers[i] });
            assert(with_peer(with_rx(m, x), i, PeerModel { ka_confirmed: true, ..m.peers[i] }) == with_rx(m1, x));
            lemma_on_u_rx(m1, retries, i, control, x);
            lemma_on_i_rx(m1, i, control, f.skip(2), x);
            lemma_on_s_rx(m1, retries, i, control, x);
            lemma_put_us_rx(
                m1,
                QueuedFrameType::UFrame,
                FrameHeader {
                    address: addr_field(m1, i),
                    control: HDLC_U_FRAME_TYPE_DM | HDLC_U_FRAME_BITS,
                },
                x,
            );
            assert(addr_field(with_rx(m1, x), i) == addr_field(m1, i));
        }
    }
}


/// The receiver state without its received frames.
pub open spec fn rx_clear(s: RxModel) -> RxModel {
    RxModel { frames: Seq::empty(), ..s }
}

proof fn lemma_rx_all_run(crc_type: HdlcCrcT, mtu: nat, s: RxModel, d: Seq<u8>)
    ensures
        ({
            let (s1, c, _e) = rx_run(crc_type, mtu, s, d);
            &&& c <= d.len()
            &&& (d.len() > 0 ==> c >= 1)
            &&& rx_all(crc_type, mtu, s, d) == rx_all(crc_type, mtu, s1, d.skip(c as int))
        }),
    decreases d.len(),
{
    if d.len() > 0 {
        let (s1, e) = rx_step(crc_type, mtu, s, d[0]);
        if e is Some {
            assert(d.skip(1) =~= d.drop_first());
        } else {
            lemma_rx_all_run(crc_type, mtu, s1, d.drop_first());
            let (s2, c2, _e2) = rx_run(crc_type, mtu, s1, d.drop_first());
            assert(d.drop_first().skip(c2 as int) =~= d.skip(c2 + 1 as int));
        }
    } else {
        assert(d.skip(0) =~= d);
    }
}

proof fn lemma_rx_step_frames(crc_type: HdlcCrcT, mtu: nat, s: RxModel, b: u8)
    ensures
        ({
            let a = rx_step(crc_type, mtu, s, b).0;
            let c = rx_step(crc_type, mtu, rx_clear(s), b).0;
            a == RxModel { frames: s.frames + c.frames, ..c }
        }),
{
    let a = rx_step(crc_type, mtu, s, b).0;
    let c = rx_step(crc_type, mtu, rx_clear(s), b).0;
    assert(s.frames + Seq::<Seq<u8>>::empty() =~= s.frames);
    if a.frames.len() != s.frames.len() {
        let n = crc_field_size(crc_type);
        assert(a.frames =~= s.frames + c.frames);
    } else {
        assert(a.frames =~= s.frames + c.frames);
    }
}

proof fn lemma_rx_all_frames(crc_type: HdlcCrcT, mtu: nat, s: RxModel, d: Seq<u8>)
    ensures
        ({
            let a = rx_all(crc_type, mtu, s, d);
            let c = rx_all(crc_type, mtu, rx_clear(s), d);
            a == RxModel { frames: s.frames + c.frames, ..c }
        }),
    decreases d.len(),
{
    if d.len() == 0 {
        assert(s.frames + Seq::<Seq<u8>>::empty() =~= s.frames);
    } else {
        let a1 = rx_step(crc_type, mtu, s, d[0]).0;
        let c1 = rx_step(crc_type, mtu, rx_clear(s), d[0]).0;
        lemma_rx_step_frames(crc_type, mtu, s, d[0]);
        lemma_rx_all_frames(crc_type, mtu, a1, d.drop_first());
        lemma_rx_all_frames(crc_type, mtu, c1, d.drop_first());
        assert(rx_clear(a1) == rx_clear(c1));
        let ra = rx_all(crc_type, mtu, a1, d.drop_first());
        let rc = rx_all(crc_type, mtu, c1, d.drop_first());
        let rz = rx_all(crc_type, mtu, rx_clear(a1), d.drop_first());
        assert(ra.frames =~= s.frames + rc.frames);
    }
}

proof fn lemma_on_frames_push(m: FdModel, retries: u8, a: Seq<Seq<u8>>, f: Seq<u8>)
    ensures
        on_frames(m, retries, a.push(f)) == on_frame(on_frames(m, retries, a), retries, f),
{
    assert(a.push(f).drop_last() =~= a);
}


impl TinyFd {
    /// Handles, in order, every frame the framing layer has received.
    #[verifier::rlimit(30)]
    fn drain_rx_frames(&mut self)
        requires
            old(self).wf(),
            old(self).hdlc.sent_frames().len() == 0,
        ensures
            final(self).wf(),
            final(self).hdlc.sent_frames().len() == 0,
            final(self).same_config(old(self)),
            final(self).hdlc.crc_type() == old(self).hdlc.crc_type(),
            final(self).hdlc.phys_mtu() == old(self).hdlc.phys_mtu(),
            final(self).hdlc.rx_model() == rx_clear(old(self).hdlc.rx_model()),
            final(self).model() == with_rx(
                on_frames(old(self).model(), old(self).retries, old(self).hdlc.rx_model().frames),
                rx_clear(old(self).hdlc.rx_model()),
            ),
    {
        let ghost m0 = self.model();
        let ghost fresh = self.hdlc.rx_model().frames;
        let ghost mut handled: Seq<Seq<u8>> = Seq::empty();
        proof {
            assert(fresh =~= handled + self.hdlc.rx_model().frames);
            assert(with_rx(on_frames(m0, self.retries, handled), self.hdlc.rx_model()) == self.model());
        }
        loop
            invariant
                self.wf(),
                self.hdlc.sent_frames().len() == 0,
                self.same_config(old(self)),
                self.hdlc.crc_type() == old(self).hdlc.crc_type(),
                self.hdlc.phys_mtu() == old(self).hdlc.phys_mtu(),
                m0 == old(self).model(),
                fresh == old(self).hdlc.rx_model().frames,
                fresh == handled + self.hdlc.rx_model().frames,
                rx_clear(self.hdlc.rx_model()) == rx_clear(old(self).hdlc.rx_model()),
                self.model() == with_rx(on_frames(m0, self.retries, handled), self.hdlc.rx_model()),
            ensures
                self.wf(),
                self.hdlc.sent_frames().len() == 0,
                self.same_config(old(self)),
                self.hdlc.crc_type() == old(self).hdlc.crc_type(),
                self.hdlc.phys_mtu() == old(self).hdlc.phys_mtu(),
                self.hdlc.rx_model() == rx_clear(old(self).hdlc.rx_model()),
                self.model() == with_rx(on_frames(m0, self.retries, fresh), self.hdlc.rx_model()),
            decreases self.hdlc.rx_model().frames.len(),
        {
            let ghost pending = self.hdlc.rx_model().frames;
            match self.hdlc.get_rx_frame() {
                Some(frame) => {
                    let ghost mid = self.model();
                    let ghost hm = on_frames(m0, self.retries, handled);
                    proof {
                        assert(mid == with_rx(hm, self.hdlc.rx_model()));
                    }
                    self.on_frame_received(frame.as_slice());
                    proof {
                        lemma_on_frame_rx(hm, self.retries, frame@, mid.rx);
                        lemma_on_frames_push(m0, self.retries, handled, frame@);
                        assert(pending[0] == frame@);
                        assert(pending =~= seq![frame@] + pending.drop_first());
                        handled = handled.push(frame@);
                        assert(fresh =~= handled + self.hdlc.rx_model().frames);
                    }
                },
                None => {
                    proof {
                        assert(handled =~= fresh);
                        assert(self.hdlc.rx_model().frames =~= Seq::<Seq<u8>>::empty());
                        assert(self.hdlc.rx_model() == rx_clear(self.hdlc.rx_model()));
                    }
                    break;
                },
            }
        }
    }

    /// Processes bytes received from the link: they are decoded by the
    /// framing layer (frames with a bad frame check are dropped and
    /// decoding goes on), and every decoded frame is handled in order by
    /// the protocol rules ([`on_frame`]). Always `Ok`.
    #[verifier::rlimit(80)]
    #[verifier::spinoff_prover]
    pub fn on_rx_data(&mut self, data: &[u8]) -> (r: TinyResult<()>)
        requires
            old(self).inv(),
        ensures
            final(self).inv(),
            final(self).same_config(old(self)),
            r is Ok,
            ({
                let m0 = old(self).model();
                let all = rx_all(old(self).crc_type(), old(self).phys_mtu(), m0.rx, data@);
                final(self).model() == with_rx(on_frames(m0, old(self).retries(), all.frames), rx_clear(all))
            }),
    {
        let ghost m0 = self.model();
        let ghost t = self.hdlc.crc_type();
        let ghost mtu = self.hdlc.phys_mtu();
        let ghost all = rx_all(t, mtu, m0.rx, data@);
        let ghost mut done: Seq<Seq<u8>> = Seq::empty();
        let mut pos: usize = 0;
        proof {
            assert(data@.skip(0) =~= data@);
            assert(m0.rx.frames =~= Seq::<Seq<u8>>::empty());
            assert(rx_clear(m0.rx) == m0.rx);
            lemma_rx_all_frames(t, mtu, m0.rx, data@);
            assert(done + all.frames =~= all.frames);
            assert(all == rx_prefix(done, rx_all(t, mtu, self.hdlc.rx_model(), data@.skip(0))));
            assert(on_frames(m0, self.retries, done) == m0);
        }
        while pos < data.len()
            invariant
                self.inv(),
                self.same_config(old(self)),
                t == self.hdlc.crc_type(),
                mtu == self.hdlc.phys_mtu(),
                m0 == old(self).model(),
                all == rx_all(t, mtu, m0.rx, data@),
                pos <= data@.len(),
                all == rx_prefix(done, rx_all(t, mtu, self.hdlc.rx_model(), data@.skip(pos as int))),
                self.model() == with_rx(on_frames(m0, self.retries, done), self.hdlc.rx_model()),
            ensures
                self.inv(),
                self.same_config(old(self)),
                pos == data@.len(),
                all == rx_prefix(done, rx_all(t, mtu, self.hdlc.rx_model(), data@.skip(pos as int))),
                self.model() == with_rx(on_frames(m0, self.retries, done), self.hdlc.rx_model()),
            decreases data@.len() - pos,
        {
            let remaining = &data[pos..data.len()];
            let ghost c = self.hdlc.rx_model();
            let ghost rest = data@.skip(pos as int);
            assert(remaining@ == rest);
            let (consumed, err) = self.hdlc.run_rx(remaining);
            proof {
                lemma_rx_all_run(t, mtu, c, rest);
                assert(rest.len() > 0);
                assert(consumed as nat == rx_run(t, mtu, c, rest).1);
                assert(consumed >= 1);
            }
            if consumed == 0 && err.is_none() {
                break;
            }
            let ghost s1 = self.hdlc.rx_model();
            proof {
                lemma_rx_chunk(t, mtu, done, c, rest, all);
                assert(rest.skip(consumed as int) =~= data@.skip(pos + consumed));
            }
            pos = pos + consumed;
            proof {
                assert(self.model() == with_rx(on_frames(m0, self.retries, done), s1));
            }
            self.drain_rx_frames();
            proof {
                lemma_model_chunk(m0, self.retries, done, s1);
                done = done + s1.frames;
            }
            if let Some(e) = err {
                if e == TinyError::WrongCrc {
                    continue;
                }
            }
        }
        proof {
            let r = self.hdlc.rx_model();
            assert(data@.skip(pos as int) =~= Seq::<u8>::empty());
            assert(rx_all(t, mtu, r, Seq::<u8>::empty()) == r);
            assert(r.frames =~= Seq::<Seq<u8>>::empty());
            assert(done + r.frames =~= done);
            assert(all.frames == done);
            assert(rx_clear(all) == r);
        }
        Ok(())
    }
}


proof fn lemma_on_frames_rx(m: FdModel, retries: u8, fs: Seq<Seq<u8>>, x: RxModel)
    ensures
        on_frames(with_rx(m, x), retries, fs) == with_rx(on_frames(m, retries, fs), x),
    decreases fs.len(),
{
    if fs.len() > 0 {
        lemma_on_frames_rx(m, retries, fs.drop_last(), x);
        lemma_on_frame_rx(on_frames(m, retries, fs.drop_last()), retries, fs.last(), x);
    }
}

proof fn lemma_on_frames_append(m: FdModel, retries: u8, a: Seq<Seq<u8>>, b: Seq<Seq<u8>>)
    ensures
        on_frames(m, retries, a + b) == on_frames(on_frames(m, retries, a), retries, b),
    decreases b.len(),
{
    if b.len() == 0 {
        assert(a + b =~= a);
    } else {
        lemma_on_frames_append(m, retries, a, b.drop_last());
        assert((a + b).drop_last() =~= a + b.drop_last());
        assert((a + b).last() == b.last());
    }
}


/// A receiver state with `done` put in front of its received frames.
pub open spec fn rx_prefix(done: Seq<Seq<u8>>, r: RxModel) -> RxModel {
    RxModel { frames: done + r.frames, ..r }
}

proof fn lemma_rx_chunk(
    crc_type: HdlcCrcT,
    mtu: nat,
    done: Seq<Seq<u8>>,
    c: RxModel,
    rest: Seq<u8>,
    all: RxModel,
)
    requires
        all == rx_prefix(done, rx_all(crc_type, mtu, c, rest)),
        c.frames.len() == 0,
    ensures
        ({
            let (s1, cons, _e) = rx_run(crc_type, mtu, c, rest);
            all == rx_prefix(done + s1.frames, rx_all(crc_type, mtu, rx_clear(s1), rest.skip(cons as int)))
        }),
{
    let (s1, cons, _e) = rx_run(crc_type, mtu, c, rest);
    lemma_rx_all_run(crc_type, mtu, c, rest);
    lemma_rx_all_frames(crc_type, mtu, s1, rest.skip(cons as int));
    let z = rx_all(crc_type, mtu, rx_clear(s1), rest.skip(cons as int));
    assert(done + (s1.frames + z.frames) =~= (done + s1.frames) + z.frames);
}

proof fn lemma_model_chunk(m0: FdModel, retries: u8, done: Seq<Seq<u8>>, s1: RxModel)
    ensures
        with_rx(on_frames(with_rx(on_frames(m0, retries, done), s1), retries, s1.frames), rx_clear(s1))
            == with_rx(on_frames(m0, retries, done + s1.frames), rx_clear(s1)),
{
    let hm = on_frames(m0, retries, done);
    lemma_on_frames_rx(hm, retries, s1.frames, s1);
    lemma_on_frames_append(m0, retries, done, s1.frames);
}


impl TinyFd {
    /// Queues an I-frame for peer `peer`; `Busy` (nothing changed) when the
    /// peer's window or the I-frame queue is full.
    fn put_i_frame(&mut self, peer: u8, address: u8, data: &[u8]) -> (r: TinyResult<()>)
        requires
            old(self).wf(),
            peer < old(self).peer_mgr.peers@.len(),
            address == addr_field(old(self).model(), peer as int),
            data@.len() <= old(self).mtu,
        ensures
            final(self).wf(),
            final(self).same_config(old(self)),
            final(self).hdlc == old(self).hdlc,
            (final(self).model(), r is Ok) == put_i(old(self).model(), peer as int, data@),
            r is Err ==> r == Err::<(), TinyError>(TinyError::Busy),
    {
        let mut p = self.peer_mgr.peers[peer as usize];
        proof {
            assert(self.model().peers[peer as int] == peer_model(p));
        }
        if p.i_queue_control.tx_full() {
            return Err(TinyError::Busy);
        }
        let ns = p.i_queue_control.get_last_ns();
        let nr = p.i_queue_control.get_next_frame_to_receive();
        let control = (ns << 5u8) | (nr << 1u8) | HDLC_I_FRAME_BITS;
        let header = FrameHeader { address, control };
        let ghost s0 = self.frames.i_queue.slots();
        match self.frames.i_queue.allocate(QueuedFrameType::IFrame, header, data) {
            Some(idx) => {
                proof {
                    let s1 = self.frames.i_queue.slots();
                    assert forall|j: int|
                        #![trigger s1[j]]
                        0 <= j < s1.len() implies (s1[j] matches Some(e) ==> e.payload.len() <= self.mtu) by {
                        if j != idx {
                            assert(s1[j] == s0[j]);
                        }
                    }
                }
                p.i_queue_control.move_to_next_ns();
                self.set_peer(peer as usize, p);
                Ok(())
            },
            None => Err(TinyError::Busy),
        }
    }

    /// Queues a data packet for the peer with user address `address` (0:
    /// the first peer).
    ///
    /// Errors, each leaving the station unchanged: `DataTooLarge` when the
    /// payload exceeds the MTU; `UnknownPeer` when no peer has that
    /// address; `Timeout` when the I-frame queue has no free slot (the
    /// station does not block: a caller that wants to wait `timeout_ms`
    /// does so itself, nothing inside the station changes meanwhile);
    /// `Busy` when the peer's window or the queue is full.
    pub fn send_packet(&mut self, address: u8, data: &[u8], timeout_ms: u32) -> (r: TinyResult<()>)
        requires
            old(self).inv(),
        ensures
            final(self).inv(),
            final(self).same_config(old(self)),
            ({
                let m = old(self).model();
                let peer = send_peer(m, address);
                if data@.len() > old(self).mtu() {
                    r == Err::<(), TinyError>(TinyError::DataTooLarge) && final(self).model() == m
                } else if peer == HDLC_INVALID_PEER_INDEX {
                    r == Err::<(), TinyError>(TinyError::UnknownPeer) && final(self).model() == m
                } else if m.events & FD_EVENT_QUEUE_HAS_FREE_SLOTS == 0 {
                    r == Err::<(), TinyError>(TinyError::Timeout) && final(self).model() == m
                } else {
                    let (m1, ok) = put_i(m, peer as int, data@);
                    if ok {
                        r is Ok && final(self).model() == (FdModel { events: events_after_put_i(m1), ..m1 })
                    } else {
                        r == Err::<(), TinyError>(TinyError::Busy) && final(self).model() == m
                    }
                }
            }),
    {
        if data.len() > self.mtu {
            return Err(TinyError::DataTooLarge);
        }
        let peer = if address == FD_PRIMARY_ADDR {
            if self.peer_mgr.peers.len() == 0 {
                return Err(TinyError::UnknownPeer);
            }
            0u8
        } else {
            let hdlc_addr = (address << 2u8) | HDLC_E_BIT;
            self.peer_mgr.address_field_to_peer(hdlc_addr)
        };
        proof {
            let a = ((address << 2u8) | 0x01u8) & 0xFDu8;
            lemma_first_peer_same(self.peer_mgr.peers@, a, 0);
            lemma_first_peer_bound(self.model().peers, a, 0);
        }
        if peer == HDLC_INVALID_PEER_INDEX {
            return Err(TinyError::UnknownPeer);
        }
        let bits = self.events & FD_EVENT_QUEUE_HAS_FREE_SLOTS;
        if bits == 0 {
            return Err(TinyError::Timeout);
        }
        let address_field = self.address_field(peer);
        match self.put_i_frame(peer, address_field, data) {
            Ok(()) => {},
            Err(e) => {
                return Err(e);
            },
        }
        self.events = self.events | FD_EVENT_TX_DATA_AVAILABLE;
        if !self.frames.i_queue.has_free_slots() {
            self.events = self.events & !FD_EVENT_QUEUE_HAS_FREE_SLOTS;
        }
        Ok(())
    }
}


proof fn lemma_timeouts_prefix(m: FdModel, mode: FdMode, retries: u8, due: Seq<(bool, bool)>, x: (bool, bool), n: nat)
    requires
        n <= due.len(),
    ensures
        timeouts(m, mode, retries, due.push(x), n) == timeouts(m, mode, retries, due, n),
    decreases n,
{
    if n > 0 {
        lemma_timeouts_prefix(m, mode, retries, due, x, (n - 1) as nat);
    }
}

impl TinyFd {
    /// Timeout handling of peer `i` with the given timing outcomes.
    fn peer_timeout(&mut self, i: usize, frame_due: bool, i_due: bool)
        requires
            old(self).wf(),
            i < old(self).peer_mgr.peers@.len(),
        ensures
            final(self).wf(),
            final(self).same_config(old(self)),
            final(self).hdlc == old(self).hdlc,
            final(self).model() == peer_timeout(
                old(self).model(),
                old(self).mode(),
                old(self).retries(),
                i as int,
                frame_due,
                i_due,
            ),
            final(self).peer_mgr.peers@.len() == old(self).peer_mgr.peers@.len(),
            forall|j: int|
                #![trigger final(self).peer_mgr.peers@[j]]
                0 <= j < old(self).peer_mgr.peers@.len() && j != i ==> final(self).peer_mgr.peers@[j]
                    == old(self).peer_mgr.peers@[j],
            !timeout_acts(old(self).model(), old(self).mode(), i as int, frame_due, i_due)
                ==> *final(self) == *old(self),
    {
        let mut p = self.peer_mgr.peers[i];
        proof {
            assert(self.model().peers[i as int] == peer_model(p));
        }
        match p.state {
            FdState::Disconnected | FdState::Idle => {
                if self.mode == FdMode::Abm && frame_due {
                    let addr = self.address_field(i as u8);
                    let header = FrameHeader {
                        address: addr,
                        control: HDLC_U_FRAME_TYPE_SABM | HDLC_U_FRAME_BITS | HDLC_P_BIT,
                    };
                    let _ = self.put_u_s_frame(QueuedFrameType::UFrame, header);
                    p.state = FdState::Connecting;
                    p.last_sent_frame_ts = Some(instant_now());
                    self.set_peer(i, p);
                }
            },
            FdState::Connecting => {
                if frame_due {
                    if p.retries == 0 {
                        p.state = FdState::Disconnected;
                        self.set_peer(i, p);
                    } else {
                        p.retries = p.retries - 1;
                        let addr = self.address_field(i as u8);
                        let header = FrameHeader {
                            address: addr,
                            control: HDLC_U_FRAME_TYPE_SABM | HDLC_U_FRAME_BITS | HDLC_P_BIT,
                        };
                        let _ = self.put_u_s_frame(QueuedFrameType::UFrame, header);
                        p.last_sent_frame_ts = Some(instant_now());
                        self.set_peer(i, p);
                    }
                }
            },
            FdState::Connected => {
                if p.i_queue_control.has_unconfirmed_frames() && i_due {
                    if p.retries == 0 {
                        self.switch_to_disconnected(i as u8);
                    } else {
                        p.retries = p.retries - 1;
                        let confirm_ns = p.i_queue_control.get_next_frame_to_confirm();
                        let resend_all = |_s: u8| -> (b: bool)
                            ensures
                                b,
                            { true };
                        p.i_queue_control.retransmit_frame(confirm_ns, resend_all);
                        p.last_sent_i_ts = Some(instant_now());
                        self.set_peer(i, p);
                        self.events = self.events | FD_EVENT_TX_DATA_AVAILABLE;
                    }
                }
            },
            _ => {},
        }
    }

    /// Timeout handling of peer `i`, given the milliseconds elapsed since it
    /// last sent a frame and since it last sent an I-frame: a timeout has
    /// passed when its elapsed time reaches the retry timeout
    /// ([`peer_timeout`]). The other peers' timestamps stay; when nothing is
    /// decided ([`timeout_acts`]) nothing changes at all.
    pub fn peer_timeout_after(&mut self, i: usize, frame_elapsed_ms: u128, i_elapsed_ms: u128)
        requires
            old(self).inv(),
            i < old(self).model().peers.len(),
        ensures
            final(self).inv(),
            final(self).same_config(old(self)),
            final(self).model() == peer_timeout(
                old(self).model(),
                old(self).mode(),
                old(self).retries(),
                i as int,
                frame_elapsed_ms >= old(self).retry_timeout(),
                i_elapsed_ms >= old(self).retry_timeout(),
            ),
            final(self).stamps().len() == old(self).stamps().len(),
            forall|j: int|
                #![trigger final(self).stamps()[j]]
                0 <= j < old(self).stamps().len() && j != i ==> final(self).stamps()[j] == old(
                    self,
                ).stamps()[j],
            !timeout_acts(
                old(self).model(),
                old(self).mode(),
                i as int,
                frame_elapsed_ms >= old(self).retry_timeout(),
                i_elapsed_ms >= old(self).retry_timeout(),
            ) ==> *final(self) == *old(self),
    {
        let frame_due = frame_elapsed_ms >= self.retry_timeout as u128;
        let i_due = i_elapsed_ms >= self.retry_timeout as u128;
        self.peer_timeout(i, frame_due, i_due);
        proof {
            assert forall|j: int|
                #![trigger self.stamps()[j]]
                0 <= j < old(self).stamps().len() && j != i implies self.stamps()[j] == old(
                    self,
                ).stamps()[j] by {
                assert(self.peer_mgr.peers@[j] == old(self).peer_mgr.peers@[j]);
            }
        }
    }

    /// Timeout handling: for every peer in order, with the milliseconds
    /// elapsed since its stored last-frame and last-I-frame timestamps
    /// ([`TinyFd::peer_timeout_after`], [`timeouts`] over [`due_flags`]):
    /// connection requests are sent (ABM) or repeated, connection attempts
    /// give up, unacknowledged I-frames are sent again or the peer is
    /// disconnected when its retries are used up. The elapsed times are
    /// clock readings, so the contract holds for every reading.
    pub fn check_timeouts(&mut self)
        requires
            old(self).inv(),
        ensures
            final(self).inv(),
            final(self).same_config(old(self)),
            exists|el: Seq<(u128, u128)>|
                #![trigger due_flags(el, old(self).retry_timeout())]
                {
                    &&& el.len() == old(self).model().peers.len()
                    &&& final(self).model() == timeouts(
                        old(self).model(),
                        old(self).mode(),
                        old(self).retries(),
                        due_flags(el, old(self).retry_timeout()),
                        el.len(),
                    )
                    &&& readings_match_stamps(old(self).stamps(), el)
                },
    {
        let ghost m0 = self.model();
        let ghost st0 = self.stamps();
        let ghost rt = self.retry_timeout;
        let ghost mut el: Seq<(u128, u128)> = Seq::empty();
        let n = self.peer_mgr.peers.len();
        let mut i: usize = 0;
        while i < n
            invariant
                self.inv(),
                self.same_config(old(self)),
                m0 == old(self).model(),
                st0 == old(self).stamps(),
                rt == old(self).retry_timeout(),
                n == self.peer_mgr.peers@.len(),
                n == m0.peers.len(),
                n == st0.len(),
                self.stamps().len() == n,
                forall|k: int| i <= k < n ==> #[trigger] self.stamps()[k] == st0[k],
                i <= n,
                el.len() == i,
                readings_match_stamps(st0.take(i as int), el),
                self.model() == timeouts(m0, self.mode, self.retries, due_flags(el, rt), i as nat),
            decreases n - i,
        {
            let fe = match self.peer_mgr.peers[i].last_sent_frame_ts {
                Some(t) => elapsed_millis(&t),
                None => u128::MAX,
            };
            let ie = match self.peer_mgr.peers[i].last_sent_i_ts {
                Some(t) => elapsed_millis(&t),
                None => u128::MAX,
            };
            proof {
                assert(self.stamps()[i as int] == st0[i as int]);
                assert(self.stamps()[i as int].1 == self.peer_mgr.peers@[i as int].last_sent_frame_ts);
                assert(self.stamps()[i as int].0 == self.peer_mgr.peers@[i as int].last_sent_i_ts);
            }
            self.peer_timeout_after(i, fe, ie);
            proof {
                let el2 = el.push((fe, ie));
                assert(due_flags(el2, rt) =~= due_flags(el, rt).push((fe >= rt, ie >= rt)));
                lemma_timeouts_prefix(m0, self.mode, self.retries, due_flags(el, rt), (fe >= rt, ie >= rt), i as nat);
                assert(st0.take(i + 1) =~= st0.take(i as int).push(st0[i as int]));
                el = el2;
            }
            i = i + 1;
        }
        proof {
            assert(st0.take(n as int) =~= st0);
            assert(el.len() == old(self).model().peers.len() && self.model() == timeouts(
                old(self).model(),
                old(self).mode(),
                old(self).retries(),
                due_flags(el, old(self).retry_timeout()),
                el.len(),
            ) && readings_match_stamps(old(self).stamps(), el));
        }
    }

}


proof fn lemma_gen_i_frame(m: FdModel, retries: u8, i: nat)
    ensures
        gen_i_frame(m, retries, i).1 is None ==> gen_i_frame(m, retries, i).0 == m,
        gen_i_frame(m, retries, i).1 is Some ==> gen_i_frame(m, retries, i).0.tx_frame == gen_i_frame(
            m,
            retries,
            i,
        ).1,
    decreases m.peers.len() - i,
{
    if i < m.peers.len() {
        lemma_gen_i_frame(m, retries, i + 1);
    }
}

/// Handing the next frame to the framing layer twice does nothing more
/// than doing it once.
pub proof fn lemma_generate_idempotent(m: FdModel, retries: u8)
    ensures
        generate(generate(m, retries), retries) == generate(m, retries),
{
    lemma_gen_i_frame(m, retries, 0);
}

impl TinyFd {
    /// Hands the next frame to the framing layer when it is idle
    /// ([`generate`]).
    #[verifier::rlimit(40)]
    fn generate_tx_frames(&mut self)
        requires
            old(self).wf(),
            old(self).hdlc.sent_frames().len() == 0,
        ensures
            final(self).wf(),
            final(self).same_config(old(self)),
            final(self).hdlc.sent_frames().len() == 0,
            final(self).hdlc.crc_type() == old(self).hdlc.crc_type(),
            final(self).hdlc.rx_model() == old(self).hdlc.rx_model(),
            final(self).model() == generate(old(self).model(), old(self).retries()),
    {
        let ghost m0 = self.model();
        if self.hdlc.is_tx_busy() {
            return ;
        }
        let cap = self.frames.s_queue.capacity();
        let mut i: usize = 0;
        while i < cap
            invariant
                *self == *old(self),
                old(self).wf(),
                old(self).hdlc.sent_frames().len() == 0,
                m0 == old(self).model(),
                m0.tx_frame is None,
                cap == m0.s_slots.len(),
                i <= cap,
                first_used_slot(m0.s_slots, 0) == first_used_slot(m0.s_slots, i as nat),
            decreases cap - i,
        {
            match self.frames.s_queue.get(i) {
                Some(frame) => {
                    proof {
                        assert(m0.s_slots[i as int] == Some(frame@));
                        assert(frame@.payload.len() == 0);
                    }
                    let data = frame.to_bytes();
                    let res = self.hdlc.put_frame(data.as_slice());
                    assert(res is Ok);
                    self.frames.s_queue.free(i);
                    proof {
                        let s1 = self.frames.s_queue.slots();
                        assert forall|j: int|
                            #![trigger s1[j]]
                            0 <= j < s1.len() implies (s1[j] matches Some(e) ==> e.payload.len() == 0) by {
                            if j != i {
                                assert(s1[j] == m0.s_slots[j]);
                            }
                        }
                    }
                    return ;
                },
                None => {},
            }
            i = i + 1;
        }
        let n = self.peer_mgr.peers.len();
        let mut k: usize = 0;
        while k < n
            invariant
                *self == *old(self),
                old(self).wf(),
                old(self).hdlc.sent_frames().len() == 0,
                m0 == old(self).model(),
                m0.tx_frame is None,
                first_used_slot(m0.s_slots, 0) >= m0.s_slots.len(),
                n == m0.peers.len(),
                n == self.peer_mgr.peers@.len(),
                k <= n,
                gen_i_frame(m0, self.retries, 0) == gen_i_frame(m0, self.retries, k as nat),
            decreases n - k,
        {
            let mut p = self.peer_mgr.peers[k];
            proof {
                assert(m0.peers[k as int] == peer_model(p));
            }
            if p.state == FdState::Connected && !p.i_queue_control.all_frames_are_sent() {
                let ns = p.i_queue_control.get_next_frame_to_send();
                let nr = p.i_queue_control.get_next_frame_to_receive();
                let addr = self.address_field(k as u8);
                match self.frames.i_queue.get_next(QueuedFrameType::IFrame, addr, ns) {
                    Some((_idx, frame)) => {
                        let payload = copy_bytes(frame.payload.as_slice());
                        let mut data = frame.to_bytes();
                        data.set(1, (ns << 5u8) | (nr << 1u8) | HDLC_I_FRAME_BITS);
                        let res = self.hdlc.put_frame(data.as_slice());
                        assert(res is Ok);
                        p.i_queue_control.advance_next_ns();
                        let now = instant_now();
                        p.last_sent_i_ts = Some(now);
                        p.last_sent_frame_ts = Some(now);
                        p.retries = self.retries;
                        let user = self.user_address_of(k as u8);
                        self.set_peer(k, p);
                        self.push_note(FdEvent::Sent { address: user, payload });
                        return ;
                    },
                    None => {},
                }
            }
            k = k + 1;
        }
        proof {
            lemma_gen_i_frame(m0, self.retries, 0);
        }
    }
}


impl TinyFd {
    /// Drops the framing layer's notices of completely sent frames.
    fn drop_sent_notices(&mut self)
        requires
            old(self).wf(),
        ensures
            final(self).wf(),
            final(self).same_config(old(self)),
            final(self).model() == old(self).model(),
            final(self).hdlc.sent_frames().len() == 0,
            final(self).hdlc.crc_type() == old(self).hdlc.crc_type(),
    {
        loop
            invariant
                self.wf(),
                self.same_config(old(self)),
                self.model() == old(self).model(),
                self.hdlc.crc_type() == old(self).hdlc.crc_type(),
            ensures
                self.hdlc.sent_frames().len() == 0,
            decreases self.hdlc.sent_frames().len(),
        {
            match self.hdlc.get_tx_sent_frame() {
                Some(_frame) => {},
                None => {
                    break;
                },
            }
        }
    }

    /// Fills `out` with bytes for the channel: timeouts are handled first
    /// ([`TinyFd::check_timeouts`]), then the next frame is handed to the
    /// framing layer when it is idle ([`generate`]), then as many bytes of
    /// the frame being sent as `out` holds are written to its start.
    /// Returns the number of bytes written.
    ///
    /// Nothing inside the station changes while it is not called, so when
    /// nothing was written a caller that wants to wait `timeout_ms` for
    /// data does so itself and calls again.
    pub fn get_tx_data(&mut self, out: &mut [u8], timeout_ms: u32) -> (r: usize)
        requires
            old(self).inv(),
        ensures
            final(self).inv(),
            final(self).same_config(old(self)),
            final(out)@.len() == old(out)@.len(),
            exists|el: Seq<(u128, u128)>|
                #![trigger due_flags(el, old(self).retry_timeout())]
                {
                    let m1 = timeouts(
                        old(self).model(),
                        old(self).mode(),
                        old(self).retries(),
                        due_flags(el, old(self).retry_timeout()),
                        el.len(),
                    );
                    let m2 = generate(m1, old(self).retries());
                    let n = old(out)@.len();
                    &&& el.len() == old(self).model().peers.len()
                    &&& readings_match_stamps(old(self).stamps(), el)
                    &&& r == tx_written(old(self).crc_type(), m2, n)
                    &&& final(out)@ == splice(old(out)@, 0, tx_bytes(old(self).crc_type(), m2, n))
                    &&& final(self).model() == tx_after(old(self).crc_type(), m2, n)
                },
    {
        self.check_timeouts();
        let ghost m1 = self.model();
        let ghost el = choose|el: Seq<(u128, u128)>|
            el.len() == old(self).model().peers.len() && m1 == timeouts(
                old(self).model(),
                old(self).mode(),
                old(self).retries(),
                due_flags(el, old(self).retry_timeout()),
                el.len(),
            ) && readings_match_stamps(old(self).stamps(), el);
        self.generate_tx_frames();
        let ghost m2 = self.model();
        let ghost out0 = out@;
        proof {
            self.hdlc.lemma_idle_progress();
        }
        let written = self.hdlc.run_tx(out);
        proof {
            self.hdlc.lemma_idle_progress();
            assert(self.model() == tx_after(self.crc_type(), m2, out0.len()));
        }
        self.drop_sent_notices();
        if written == 0 && timeout_ms > 0 && (self.events & FD_EVENT_TX_DATA_AVAILABLE) != 0 {
            let ghost m3 = self.model();
            let ghost out1 = out@;
            proof {
                lemma_generate_idempotent(m1, self.retries);
                assert(m3 == m2);
                assert(tx_bytes(self.crc_type(), m2, out0.len()) =~= Seq::<u8>::empty());
                assert(out1 =~= out0);
            }
            self.generate_tx_frames();
            proof {
                self.hdlc.lemma_idle_progress();
            }
            let again = self.hdlc.run_tx(out);
            self.drop_sent_notices();
            proof {
                self.hdlc.lemma_idle_progress();
                assert(out@ =~= out1);
                assert(self.model() == m3);
                assert(timeouts(old(self).model(), old(self).mode(), old(self).retries(), due_flags(el, old(self).retry_timeout()), el.len()) == m1);
            }
            return again;
        }
        proof {
            assert(timeouts(old(self).model(), old(self).mode(), old(self).retries(), due_flags(el, old(self).retry_timeout()), el.len()) == m1);
        }
        written
    }
}

} // verus!
