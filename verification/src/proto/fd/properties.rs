//! Properties of the Full-Duplex protocol rules that span frames and
//! stations.
use vstd::prelude::*;
use crate::proto::fd::defines::{
    FdMode, FdState, HDLC_U_FRAME_TYPE_UA, HDLC_U_FRAME_TYPE_DM, FD_EVENT_TX_DATA_AVAILABLE, HDLC_INVALID_PEER_INDEX, HDLC_U_FRAME_TYPE_MASK, HDLC_U_FRAME_TYPE_SABM,
    HDLC_U_FRAME_TYPE_DISC,
};
use crate::proto::fd::frame_queue::slot_without_address;
use crate::proto::fd::protocol::{
    FdModel, FdNote, on_frame, on_frames, peer_of, user_address, addr_field, rx_all, peer_timeout,
    gen_i_frame, timeouts, due_flags, readings_match_stamps,
};
use crate::proto::fd::frames::{QueuedFrameType, header_bytes, FrameHeader};
use crate::proto::fd::frame_queue::{first_match_slot, slot_matches, free_index_from, lemma_free_index_valid};
use crate::proto::fd::frames::FrameEntry;
use crate::proto::fd::i_queue_control::seq_next;
use crate::proto::crc::{HdlcCrcT, crc_field_size};
use crate::proto::hdlc::low_level_ll::{RxModel, RxState, rx_run, rx_step, ll_encode, lemma_ll_roundtrip};

verus! {

/// The peer that frame `frame` comes from, by its address byte.
pub open spec fn sender(m: FdModel, frame: Seq<u8>) -> int {
    peer_of(m, frame[0]) as int
}

/// Whether `frame` comes from a known peer of `m`.
pub open spec fn from_known_peer(m: FdModel, frame: Seq<u8>) -> bool {
    &&& frame.len() >= 2
    &&& peer_of(m, frame[0]) != HDLC_INVALID_PEER_INDEX
    &&& 0 <= sender(m, frame) < m.peers.len()
}

/// Whether `frame` is an I-frame.
pub open spec fn is_i_frame(frame: Seq<u8>) -> bool {
    frame[1] & 0x01u8 == 0
}

/// Whether `frame` is a U-frame of the given type.
pub open spec fn is_u_frame(frame: Seq<u8>, u: u8) -> bool {
    &&& frame[1] & 0x03u8 == 0x03u8
    &&& frame[1] & HDLC_U_FRAME_TYPE_MASK == u
}

/// Send number N(S) of an I-frame.
pub open spec fn send_number(frame: Seq<u8>) -> u8 {
    (frame[1] >> 5u8) & 7u8
}

/// A connected station hands the payload of an I-frame from its peer whose
/// send number is the one it expects to its user, as the newest report,
/// from the user address of that peer.
pub proof fn lemma_in_sequence_delivery(m: FdModel, retries: u8, frame: Seq<u8>)
    requires
        from_known_peer(m, frame),
        m.peers[sender(m, frame)].state == FdState::Connected,
        is_i_frame(frame),
        send_number(frame) == m.peers[sender(m, frame)].ctrl.rx_state.next_nr,
    ensures
        on_frame(m, retries, frame).notes == m.notes.push(
            FdNote::Read { address: user_address(m, sender(m, frame)), payload: frame.skip(2) },
        ),
{
    let c = frame[1];
    assert(c & 0x01u8 == 0 ==> c & 0x03u8 != 0x03u8) by (bit_vector);
}

/// An I-frame whose send number is not the expected one is not handed to
/// the user.
pub proof fn lemma_out_of_sequence_dropped(m: FdModel, retries: u8, frame: Seq<u8>)
    requires
        from_known_peer(m, frame),
        m.peers[sender(m, frame)].state == FdState::Connected,
        is_i_frame(frame),
        send_number(frame) != m.peers[sender(m, frame)].ctrl.rx_state.next_nr,
    ensures
        on_frame(m, retries, frame).notes == m.notes,
{
    let c = frame[1];
    assert(c & 0x01u8 == 0 ==> c & 0x03u8 != 0x03u8) by (bit_vector);
}

/// A station hands nothing received from a peer that is neither connected
/// nor disconnecting to its user, unless the frame is a U-frame.
pub proof fn lemma_unconnected_not_delivered(m: FdModel, retries: u8, frame: Seq<u8>)
    requires
        from_known_peer(m, frame),
        m.peers[sender(m, frame)].state != FdState::Connected,
        m.peers[sender(m, frame)].state != FdState::Disconnecting,
        frame[1] & 0x03u8 != 0x03u8,
    ensures
        on_frame(m, retries, frame).notes == m.notes,
{
}

/// A connection request (SABM) from a known peer leaves that peer connected.
pub proof fn lemma_sabm_connects(m: FdModel, retries: u8, frame: Seq<u8>)
    requires
        from_known_peer(m, frame),
        is_u_frame(frame, HDLC_U_FRAME_TYPE_SABM),
    ensures
        on_frame(m, retries, frame).peers[sender(m, frame)].state == FdState::Connected,
{
}

/// A disconnect request (DISC) from a known peer leaves that peer
/// disconnected; when it was not, none of the I-frames queued for it is
/// left.
pub proof fn lemma_disc_disconnects(m: FdModel, retries: u8, frame: Seq<u8>)
    requires
        from_known_peer(m, frame),
        is_u_frame(frame, HDLC_U_FRAME_TYPE_DISC),
    ensures
        ({
            let m2 = on_frame(m, retries, frame);
            let i = sender(m, frame);
            &&& m2.peers[i].state == FdState::Disconnected
            &&& m.peers[i].state != FdState::Disconnected ==> forall|j: int|
                #![trigger m2.i_slots[j]]
                0 <= j < m2.i_slots.len() ==> (m2.i_slots[j] matches Some(e) ==> e.header.address
                    != addr_field(m, i))
        }),
{
    let i = sender(m, frame);
    let m2 = on_frame(m, retries, frame);
    if m.peers[i].state != FdState::Disconnected {
        assert forall|j: int|
            #![trigger m2.i_slots[j]]
            0 <= j < m2.i_slots.len() implies (m2.i_slots[j] matches Some(e) ==> e.header.address
                != addr_field(m, i)) by {
            assert(m2.i_slots[j] == slot_without_address(m.i_slots[j], addr_field(m, i)));
        }
    }
}

/// Where decoding meets no error, decoding that goes on after errors ends
/// in the same state.
pub proof fn lemma_rx_all_run(crc_type: HdlcCrcT, mtu: nat, s: RxModel, data: Seq<u8>)
    requires
        rx_run(crc_type, mtu, s, data).2 is None,
    ensures
        rx_all(crc_type, mtu, s, data) == rx_run(crc_type, mtu, s, data).0,
    decreases data.len(),
{
    if data.len() > 0 {
        let (s1, e) = rx_step(crc_type, mtu, s, data[0]);
        lemma_rx_all_run(crc_type, mtu, s1, data.drop_first());
    }
}

proof fn lemma_decode_sent_frame(crc_type: HdlcCrcT, mtu: nat, s: RxModel, f: Seq<u8>)
    requires
        s.phase == RxState::Start,
        s.frames.len() == 0,
        f.len() > 0,
        f.len() + crc_field_size(crc_type) <= mtu,
    ensures
        rx_all(crc_type, mtu, s, ll_encode(crc_type, f)).frames == seq![f],
{
    lemma_ll_roundtrip(crc_type, mtu, s, f);
    lemma_rx_all_run(crc_type, mtu, s, ll_encode(crc_type, f));
    assert(s.frames.push(f) =~= seq![f]);
}

proof fn lemma_on_frames_one(m: FdModel, retries: u8, f: Seq<u8>)
    ensures
        on_frames(m, retries, seq![f]) == on_frame(m, retries, f),
{
    let fs = seq![f];
    assert(fs.drop_last() =~= Seq::<Seq<u8>>::empty());
    assert(on_frames(m, retries, fs.drop_last()) == m);
}

/// A frame that a station's framing layer sends whole (see
/// [`ll_encode`]), fed to a station with the same frame check whose
/// receiver waits for a frame and holds none, is decoded as exactly that
/// frame and handled by the protocol rules ([`on_frame`]).
pub proof fn lemma_wire_delivery(
    m: FdModel,
    retries: u8,
    crc_type: HdlcCrcT,
    mtu: nat,
    f: Seq<u8>,
)
    requires
        m.rx.phase == RxState::Start,
        m.rx.frames.len() == 0,
        f.len() > 0,
        f.len() + crc_field_size(crc_type) <= mtu,
    ensures
        rx_all(crc_type, mtu, m.rx, ll_encode(crc_type, f)).frames == seq![f],
        on_frames(m, retries, rx_all(crc_type, mtu, m.rx, ll_encode(crc_type, f)).frames) == on_frame(
            m,
            retries,
            f,
        ),
{
    lemma_decode_sent_frame(crc_type, mtu, m.rx, f);
    lemma_on_frames_one(m, retries, f);
}

/// Without a timeout, timeout handling changes nothing.
pub proof fn lemma_no_timeout_no_change(m: FdModel, mode: FdMode, retries: u8, i: int)
    requires
        0 <= i < m.peers.len(),
    ensures
        peer_timeout(m, mode, retries, i, false, false) == m,
{
}

/// In ABM a disconnected peer whose frame timeout passed is asked to
/// connect: it becomes connecting.
pub proof fn lemma_abm_connect_request(m: FdModel, retries: u8, i: int)
    requires
        0 <= i < m.peers.len(),
        m.peers[i].state == FdState::Disconnected,
    ensures
        peer_timeout(m, FdMode::Abm, retries, i, true, false).peers[i].state == FdState::Connecting,
        free_index_from(m.s_slots, m.s_lookup as int, 0) matches Some(idx) ==> peer_timeout(
            m,
            FdMode::Abm,
            retries,
            i,
            true,
            false,
        ).s_slots[idx] == Some(
            FrameEntry {
                frame_type: QueuedFrameType::UFrame,
                header: FrameHeader { address: addr_field(m, i), control: 0x3Fu8 },
                payload: Seq::empty(),
            },
        ),
{
    assert(0x2Cu8 | 0x03u8 | 0x10u8 == 0x3Fu8) by (bit_vector);
    lemma_free_index_valid(m.s_slots, m.s_lookup as int, 0);
}

/// A connected peer with unconfirmed I-frames whose I-frame timeout passed
/// gets them sent again from the first unconfirmed one, using up one retry.
pub proof fn lemma_retransmit_on_timeout(m: FdModel, mode: FdMode, retries: u8, i: int, frame_due: bool)
    requires
        0 <= i < m.peers.len(),
        m.peers[i].state == FdState::Connected,
        m.peers[i].ctrl.tx_state.confirm_ns != m.peers[i].ctrl.tx_state.last_ns,
        m.peers[i].retries > 0,
    ensures
        ({
            let p = peer_timeout(m, mode, retries, i, frame_due, true).peers[i];
            &&& p.state == FdState::Connected
            &&& p.ctrl.tx_state.next_ns == m.peers[i].ctrl.tx_state.confirm_ns
            &&& p.retries == m.peers[i].retries - 1
        }),
{
}

/// A connected peer whose unconfirmed I-frames time out with no retry left
/// is disconnected. (Handing an I-frame to the framing layer restores the
/// configured retries, see [`crate::proto::fd::protocol::gen_i_frame`].)
pub proof fn lemma_give_up_after_retries(m: FdModel, mode: FdMode, retries: u8, i: int, frame_due: bool)
    requires
        0 <= i < m.peers.len(),
        m.peers[i].state == FdState::Connected,
        m.peers[i].ctrl.tx_state.confirm_ns != m.peers[i].ctrl.tx_state.last_ns,
        m.peers[i].retries == 0,
    ensures
        peer_timeout(m, mode, retries, i, frame_due, true).peers[i].state == FdState::Disconnected,
{
}

proof fn lemma_first_match_found(
    slots: Seq<Option<crate::proto::fd::frames::FrameEntry>>,
    t: QueuedFrameType,
    a: u8,
    arg: u8,
    i: nat,
)
    ensures
        first_match_slot(slots, t, a, arg, i) < slots.len() ==> slot_matches(
            slots,
            first_match_slot(slots, t, a, arg, i) as int,
            t,
            a,
            arg,
        ),
    decreases slots.len() - i,
{
    if i < slots.len() && !slot_matches(slots, i as int, t, a, arg) {
        lemma_first_match_found(slots, t, a, arg, i + 1);
    }
}

/// An I-frame that the protocol hands to the framing layer (searching the
/// peers from `i` on) goes to a connected peer: it carries that peer's
/// address field, its next send number and next expected receive number,
/// and the payload of the I-frame queued for it with that send number.
pub proof fn lemma_generated_i_frame(m: FdModel, retries: u8, i: nat)
    requires
        gen_i_frame(m, retries, i).1 is Some,
        forall|k: int|
            #![trigger m.peers[k]]
            0 <= k < m.peers.len() ==> m.peers[k].ctrl.tx_state.next_ns < 8
                && m.peers[k].ctrl.rx_state.next_nr < 8,
    ensures
        exists|k: int, j: int|
            #![trigger m.peers[k], m.i_slots[j]]
            i <= k < m.peers.len() && 0 <= j < m.i_slots.len() && m.i_slots[j] is Some && {
                let p = m.peers[k];
                let e = m.i_slots[j]->0;
                let f = gen_i_frame(m, retries, i).1->0;
                let ns = p.ctrl.tx_state.next_ns;
                &&& p.state == FdState::Connected
                &&& e.frame_type == QueuedFrameType::IFrame
                &&& e.header.address == addr_field(m, k)
                &&& f == header_bytes(
                    FrameHeader {
                        address: addr_field(m, k),
                        control: (ns << 5u8) | (p.ctrl.rx_state.next_nr << 1u8),
                    },
                ) + e.payload
                &&& is_i_frame(f)
                &&& send_number(f) == ns
            },
    decreases m.peers.len() - i,
{
    let p = m.peers[i as int];
    if p.state != FdState::Connected || p.ctrl.tx_state.next_ns == p.ctrl.tx_state.last_ns {
        lemma_generated_i_frame(m, retries, i + 1);
    } else {
        let ns = p.ctrl.tx_state.next_ns;
        let nr = p.ctrl.rx_state.next_nr;
        let addr = addr_field(m, i as int);
        let j = first_match_slot(m.i_slots, QueuedFrameType::IFrame, addr, ns, 0);
        if j >= m.i_slots.len() {
            lemma_generated_i_frame(m, retries, i + 1);
        } else {
            lemma_first_match_found(m.i_slots, QueuedFrameType::IFrame, addr, ns, 0);
            let e = m.i_slots[j as int]->0;
            let c = (ns << 5u8) | (nr << 1u8) | 0u8;
            let f = gen_i_frame(m, retries, i).1->0;
            assert(c == (ns << 5u8) | (nr << 1u8) && c & 0x01u8 == 0 && (c >> 5u8) & 7u8 == ns)
                by (bit_vector)
                requires
                    ns < 8u8,
                    nr < 8u8,
                    c == (ns << 5u8) | (nr << 1u8) | 0u8,
            ;
            assert(e.header.address == addr);
            assert(f =~= header_bytes(FrameHeader { address: addr, control: (ns << 5u8) | (nr << 1u8) })
                + e.payload);
            assert(m.peers[i as int] == p);
        }
    }
}

/// End to end: the I-frame that station `a` hands to its framing layer,
/// sent whole over the link to station `b` with the same frame check (its
/// receiver waiting for a frame and holding none), is handed to `b`'s user
/// as the newest report, with the payload queued at `a`, when `b` knows the
/// sender, is connected with it and expects that frame's send number.
pub proof fn lemma_end_to_end_delivery(
    a: FdModel,
    b: FdModel,
    retries_a: u8,
    retries_b: u8,
    crc_type: HdlcCrcT,
    mtu: nat,
)
    requires
        gen_i_frame(a, retries_a, 0).1 is Some,
        forall|k: int|
            #![trigger a.peers[k]]
            0 <= k < a.peers.len() ==> a.peers[k].ctrl.tx_state.next_ns < 8
                && a.peers[k].ctrl.rx_state.next_nr < 8,
        ({
            let f = gen_i_frame(a, retries_a, 0).1->0;
            &&& b.rx.phase == RxState::Start
            &&& b.rx.frames.len() == 0
            &&& f.len() + crc_field_size(crc_type) <= mtu
            &&& from_known_peer(b, f)
            &&& b.peers[sender(b, f)].state == FdState::Connected
            &&& send_number(f) == b.peers[sender(b, f)].ctrl.rx_state.next_nr
        }),
    ensures
        ({
            let f = gen_i_frame(a, retries_a, 0).1->0;
            let received = rx_all(crc_type, mtu, b.rx, ll_encode(crc_type, f)).frames;
            &&& received == seq![f]
            &&& exists|j: int|
                #![trigger a.i_slots[j]]
                0 <= j < a.i_slots.len() && a.i_slots[j] is Some && on_frames(b, retries_b, received).notes
                    == b.notes.push(
                    FdNote::Read { address: user_address(b, sender(b, f)), payload: a.i_slots[j]->0.payload },
                )
        }),
{
    let f = gen_i_frame(a, retries_a, 0).1->0;
    lemma_generated_i_frame(a, retries_a, 0);
    let (k, j) = choose|k: int, j: int|
        #![trigger a.peers[k], a.i_slots[j]]
        0 <= k < a.peers.len() && 0 <= j < a.i_slots.len() && a.i_slots[j] is Some && {
            let p = a.peers[k];
            let e = a.i_slots[j]->0;
            let ns = p.ctrl.tx_state.next_ns;
            &&& p.state == FdState::Connected
            &&& e.frame_type == QueuedFrameType::IFrame
            &&& e.header.address == addr_field(a, k)
            &&& f == header_bytes(
                FrameHeader {
                    address: addr_field(a, k),
                    control: (ns << 5u8) | (p.ctrl.rx_state.next_nr << 1u8),
                },
            ) + e.payload
            &&& is_i_frame(f)
            &&& send_number(f) == ns
        };
    let e = a.i_slots[j]->0;
    assert(f.skip(2) =~= e.payload);
    lemma_wire_delivery(b, retries_b, crc_type, mtu, f);
    lemma_in_sequence_delivery(b, retries_b, f);
}

/// A UA answer from a known peer completes a connection request (the peer
/// becomes connected) or a disconnect request (it becomes disconnected);
/// in any other state it changes nothing for the peer. A DM answer leaves
/// the peer disconnected.
pub proof fn lemma_ua_dm_answers(m: FdModel, retries: u8, frame: Seq<u8>)
    requires
        from_known_peer(m, frame),
    ensures
        ({
            let i = sender(m, frame);
            let st = m.peers[i].state;
            let st2 = on_frame(m, retries, frame).peers[i].state;
            &&& is_u_frame(frame, HDLC_U_FRAME_TYPE_UA) && st == FdState::Connecting ==> st2
                == FdState::Connected
            &&& is_u_frame(frame, HDLC_U_FRAME_TYPE_UA) && st == FdState::Disconnecting ==> st2
                == FdState::Disconnected
            &&& is_u_frame(frame, HDLC_U_FRAME_TYPE_UA) && st != FdState::Connecting && st
                != FdState::Disconnecting ==> st2 == st
            &&& is_u_frame(frame, HDLC_U_FRAME_TYPE_DM) ==> st2 == FdState::Disconnected
        }),
{
}

/// A connected station that takes an I-frame in sequence from its peer
/// expects the following send number next and queues an RR frame
/// acknowledging it, when the service queue has room.
pub proof fn lemma_in_sequence_ack(m: FdModel, retries: u8, frame: Seq<u8>)
    requires
        from_known_peer(m, frame),
        m.peers[sender(m, frame)].state == FdState::Connected,
        m.peers[sender(m, frame)].ctrl.rx_state.next_nr < 8,
        is_i_frame(frame),
        send_number(frame) == m.peers[sender(m, frame)].ctrl.rx_state.next_nr,
    ensures
        ({
            let i = sender(m, frame);
            let e = m.peers[i].ctrl.rx_state.next_nr;
            let m2 = on_frame(m, retries, frame);
            &&& m2.peers[i].ctrl.rx_state.next_nr == seq_next(e)
            &&& !m2.peers[i].sent_reject
            &&& free_index_from(m.s_slots, m.s_lookup as int, 0) matches Some(idx) ==> m2.s_slots[idx]
                == Some(
                FrameEntry {
                    frame_type: QueuedFrameType::SFrame,
                    header: FrameHeader {
                        address: addr_field(m, i),
                        control: 0x01u8 | (seq_next(e) << 5u8),
                    },
                    payload: Seq::empty(),
                },
            )
        }),
{
    let c = frame[1];
    assert(c & 0x01u8 == 0 ==> c & 0x03u8 != 0x03u8) by (bit_vector);
    let n = seq_next(m.peers[sender(m, frame)].ctrl.rx_state.next_nr);
    assert(0x01u8 | 0x00u8 | (n << 5u8) == 0x01u8 | (n << 5u8)) by (bit_vector);
    lemma_free_index_valid(m.s_slots, m.s_lookup as int, 0);
}

/// A connected station that takes an I-frame out of sequence keeps
/// expecting the same send number; it queues a REJ frame asking for that
/// number (when it has not asked yet and the service queue has room) and
/// then counts as having asked.
pub proof fn lemma_out_of_sequence_reject(m: FdModel, retries: u8, frame: Seq<u8>)
    requires
        from_known_peer(m, frame),
        m.peers[sender(m, frame)].state == FdState::Connected,
        is_i_frame(frame),
        send_number(frame) != m.peers[sender(m, frame)].ctrl.rx_state.next_nr,
    ensures
        ({
            let i = sender(m, frame);
            let e = m.peers[i].ctrl.rx_state.next_nr;
            let m2 = on_frame(m, retries, frame);
            &&& m2.peers[i].ctrl.rx_state.next_nr == e
            &&& m2.peers[i].sent_reject
            &&& !m.peers[i].sent_reject ==> (free_index_from(m.s_slots, m.s_lookup as int, 0) matches Some(
                idx,
            ) ==> m2.s_slots[idx] == Some(
                FrameEntry {
                    frame_type: QueuedFrameType::SFrame,
                    header: FrameHeader {
                        address: addr_field(m, i),
                        control: 0x19u8 | (e << 5u8),
                    },
                    payload: Seq::empty(),
                },
            ))
        }),
{
    let c = frame[1];
    assert(c & 0x01u8 == 0 ==> c & 0x03u8 != 0x03u8) by (bit_vector);
    let e = m.peers[sender(m, frame)].ctrl.rx_state.next_nr;
    assert(0x01u8 | 0x08u8 | (e << 5u8) | 0x10u8 == 0x19u8 | (e << 5u8)) by (bit_vector);
    lemma_free_index_valid(m.s_slots, m.s_lookup as int, 0);
}

/// A REJ (S-frame with type bits `0x08`) from a connected peer makes the
/// station go back: that peer's next send number becomes the rejected
/// number N(R) of the frame, and data to send is announced, so the
/// rejected I-frame is the next one handed out for that peer.
pub proof fn lemma_reject_goes_back(m: FdModel, retries: u8, frame: Seq<u8>)
    requires
        from_known_peer(m, frame),
        m.peers[sender(m, frame)].state == FdState::Connected,
        frame[1] & 0x03u8 == 0x01u8,
        frame[1] & 0x0Cu8 == 0x08u8,
    ensures
        on_frame(m, retries, frame).peers[sender(m, frame)].ctrl.tx_state.next_ns == (frame[1]
            >> 5u8) & 7u8,
        on_frame(m, retries, frame).events & FD_EVENT_TX_DATA_AVAILABLE != 0,
{
    let c = frame[1];
    assert(c & 0x03u8 == 0x01u8 ==> c & 0x03u8 != 0x03u8 && c & 0x01u8 != 0) by (bit_vector);
    let m2 = on_frame(m, retries, frame);
    let ev = m2.events;
    assert(forall|x: u8| (x | 0x02u8) & 0x02u8 != 0) by (bit_vector);
}

proof fn lemma_peer_timeout_others(
    m: FdModel,
    mode: FdMode,
    retries: u8,
    i: int,
    frame_due: bool,
    i_due: bool,
    k: int,
)
    requires
        0 <= i < m.peers.len(),
        0 <= k < m.peers.len(),
        k != i,
    ensures
        peer_timeout(m, mode, retries, i, frame_due, i_due).peers.len() == m.peers.len(),
        peer_timeout(m, mode, retries, i, frame_due, i_due).peers[k] == m.peers[k],
{
}

proof fn lemma_timeouts_peer(
    m: FdModel,
    mode: FdMode,
    retries: u8,
    due: Seq<(bool, bool)>,
    n: nat,
    k: int,
)
    requires
        n <= m.peers.len(),
        n <= due.len(),
        0 <= k < m.peers.len(),
    ensures
        timeouts(m, mode, retries, due, n).peers.len() == m.peers.len(),
        k >= n ==> timeouts(m, mode, retries, due, n).peers[k] == m.peers[k],
        k < n ==> timeouts(m, mode, retries, due, n).peers[k] == peer_timeout(
            timeouts(m, mode, retries, due, k as nat),
            mode,
            retries,
            k,
            due[k].0,
            due[k].1,
        ).peers[k],
    decreases n,
{
    if n > 0 {
        let j = (n - 1) as nat;
        lemma_timeouts_peer(m, mode, retries, due, j, k);
        let mj = timeouts(m, mode, retries, due, j);
        if k != j {
            lemma_peer_timeout_others(mj, mode, retries, j as int, due[j as int].0, due[j as int].1, k);
        } else {
            lemma_peer_timeout_len(mj, mode, retries, j as int, due[j as int].0, due[j as int].1);
        }
    }
}

proof fn lemma_peer_timeout_len(m: FdModel, mode: FdMode, retries: u8, i: int, frame_due: bool, i_due: bool)
    requires
        0 <= i < m.peers.len(),
    ensures
        peer_timeout(m, mode, retries, i, frame_due, i_due).peers.len() == m.peers.len(),
{
}

/// In ABM, every disconnected (or idle) peer that has not sent a frame yet
/// is asked to connect by timeout handling and becomes connecting, whatever
/// the clock readings of the other peers: its own frame timeout counts as
/// passed ([`readings_match_stamps`]). On a fresh station
/// ([`crate::proto::fd::protocol::TinyFd::new`]) this holds of every peer.
pub proof fn lemma_unsent_peer_asked_to_connect(
    m: FdModel,
    retries: u8,
    stamps: Seq<(Option<std::time::Instant>, Option<std::time::Instant>, std::time::Instant)>,
    el: Seq<(u128, u128)>,
    retry_timeout: u16,
    k: int,
)
    requires
        readings_match_stamps(stamps, el),
        el.len() == m.peers.len(),
        0 <= k < m.peers.len(),
        m.peers[k].state == FdState::Disconnected || m.peers[k].state == FdState::Idle,
        stamps[k].1 is None,
    ensures
        timeouts(m, FdMode::Abm, retries, due_flags(el, retry_timeout), el.len()).peers[k].state
            == FdState::Connecting,
{
    let due = due_flags(el, retry_timeout);
    lemma_timeouts_peer(m, FdMode::Abm, retries, due, el.len(), k);
    lemma_timeouts_peer(m, FdMode::Abm, retries, due, k as nat, k);
    assert(el[k].0 == u128::MAX);
    assert(due[k].0);
}

} // verus!
