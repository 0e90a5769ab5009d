//! Streaming HDLC low-level framing.
//!
//! Processes data byte by byte: `run_rx()` decodes incoming bytes into
//! frames, `run_tx()` produces the encoded bytes of the frame queued with
//! `put_frame()`, in pieces of any size. This is the layer under the HDLC
//! high-level, Light and Full-Duplex protocols.
use vstd::prelude::*;
use crate::proto::crc::{
    HdlcCrcT, crc_value, crc_field_size, le_bytes, le_value, lemma_le_roundtrip,
    lemma_crc_value_fits, get_crc_field_size, crc_compute,
};
use crate::proto::error::{TinyError, TinyResult};
use crate::proto::hdlc::framing::{
    FLAG_SEQUENCE, ESCAPE_CHAR, ESCAPE_BIT, is_special, stuff_byte, stuff, frame_bytes,
    lemma_stuff_append, lemma_stuff_take_succ, lemma_stuff_len,
};

verus! {

/// Which directions a reset applies to.
#[derive(Debug, Clone, Copy, PartialEq, Eq, Structural)]
pub enum ResetFlags {
    Both,
    TxOnly,
    RxOnly,
}

/// Phases of the receiver.
#[derive(Debug, Clone, Copy, PartialEq, Eq, Structural)]
pub enum RxState {
    /// Waiting for the opening flag.
    Start,
    /// Inside a frame.
    Data,
    /// The closing flag was seen (passed through within one step).
    End,
}

/// Phases of the transmitter.
#[derive(Debug, Clone, Copy, PartialEq, Eq, Structural)]
pub enum TxState {
    Start,
    Data,
    Crc,
    End,
}

/// Configuration of an [`HdlcLl`].
pub struct HdlcLlInit {
    /// Frame check kind.
    pub crc_type: HdlcCrcT,
    /// Maximum payload size (0: use the receive buffer size).
    pub mtu: usize,
    /// Receive buffer size.
    pub rx_buf_size: usize,
}

impl Default for HdlcLlInit {
    fn default() -> (r: Self)
        ensures
            r.crc_type == HdlcCrcT::HdlcCrc16,
            r.mtu == 0,
            r.rx_buf_size == 256,
    {
        HdlcLlInit { crc_type: HdlcCrcT::HdlcCrc16, mtu: 0, rx_buf_size: 256 }
    }
}

/// The receiver's state.
pub struct RxModel {
    /// Receiver phase.
    pub phase: RxState,
    /// Bytes of the frame being received (payload and check field).
    pub buf: Seq<u8>,
    /// The previous byte was the escape character.
    pub escape: bool,
    /// Received frames not yet retrieved, oldest first.
    pub frames: Seq<Seq<u8>>,
}

/// Whether a received body (payload and check field) passes its frame check.
pub open spec fn frame_check_ok(crc_type: HdlcCrcT, body: Seq<u8>) -> bool {
    let n = crc_field_size(crc_type);
    &&& body.len() >= n
    &&& crc_value(crc_type, body.take(body.len() - n)) == le_value(body.skip(body.len() - n))
}

/// The receiver's state and error after a closing flag with a non-empty body.
pub open spec fn rx_frame_end(crc_type: HdlcCrcT, mtu: nat, s: RxModel) -> (
    RxModel,
    Option<TinyError>,
) {
    let n = crc_field_size(crc_type);
    let stopped = RxModel { phase: RxState::Start, ..s };
    if s.buf.len() > mtu {
        (stopped, Some(TinyError::DataTooLarge))
    } else if s.buf.len() < n {
        (stopped, Some(TinyError::WrongCrc))
    } else if !frame_check_ok(crc_type, s.buf) {
        (stopped, Some(TinyError::WrongCrc))
    } else {
        (
            RxModel {
                phase: RxState::Start,
                buf: Seq::empty(),
                escape: s.escape,
                frames: s.frames.push(s.buf.take(s.buf.len() - n)),
            },
            None,
        )
    }
}

/// The receiver's state and error after one input byte.
pub open spec fn rx_step(crc_type: HdlcCrcT, mtu: nat, s: RxModel, b: u8) -> (
    RxModel,
    Option<TinyError>,
) {
    if s.phase == RxState::Data {
        if b == FLAG_SEQUENCE {
            if s.buf.len() == 0 {
                (RxModel { escape: false, ..s }, None)
            } else {
                rx_frame_end(crc_type, mtu, s)
            }
        } else if b == ESCAPE_CHAR {
            (RxModel { escape: true, ..s }, None)
        } else {
            let d = if s.escape {
                b ^ ESCAPE_BIT
            } else {
                b
            };
            if s.buf.len() < mtu {
                (RxModel { escape: false, buf: s.buf.push(d), ..s }, None)
            } else {
                (RxModel { escape: false, ..s }, None)
            }
        }
    } else if b == FLAG_SEQUENCE {
        (RxModel { phase: RxState::Data, buf: Seq::empty(), escape: false, ..s }, None)
    } else {
        (s, None)
    }
}

/// The receiver's state, the number of bytes consumed and the error after
/// feeding `data`: the bytes are processed in order, and processing stops
/// right after the first byte that yields an error.
pub open spec fn rx_run(crc_type: HdlcCrcT, mtu: nat, s: RxModel, data: Seq<u8>) -> (
    RxModel,
    nat,
    Option<TinyError>,
)
    decreases data.len(),
{
    if data.len() == 0 {
        (s, 0, None)
    } else {
        let (s1, e) = rx_step(crc_type, mtu, s, data[0]);
        if e is Some {
            (s1, 1, e)
        } else {
            let (s2, c, e2) = rx_run(crc_type, mtu, s1, data.drop_first());
            (s2, c + 1, e2)
        }
    }
}

/// The frame body that the streaming transmitter sends for a payload.
pub open spec fn ll_body(crc_type: HdlcCrcT, data: Seq<u8>) -> Seq<u8> {
    data + le_bytes(crc_value(crc_type, data), crc_field_size(crc_type))
}

/// The bytes that the streaming transmitter sends for a payload.
pub open spec fn ll_encode(crc_type: HdlcCrcT, data: Seq<u8>) -> Seq<u8> {
    frame_bytes(ll_body(crc_type, data))
}

/// The contents of a list of byte vectors.
pub open spec fn vecs_view(v: Seq<Vec<u8>>) -> Seq<Seq<u8>> {
    v.map_values(|f: Vec<u8>| f@)
}

/// Low-level HDLC framing state machine.
pub struct HdlcLl {
    crc_type: HdlcCrcT,
    phys_mtu: usize,
    rx_buf: Vec<u8>,
    rx_state: RxState,
    rx_ptr: usize,
    rx_escape: bool,
    tx_state: TxState,
    tx_data: Option<Vec<u8>>,
    tx_pos: usize,
    tx_crc: u32,
    tx_crc_bits_sent: u8,
    tx_escape: bool,
    rx_frames: Vec<Vec<u8>>,
    tx_sent_frames: Vec<Vec<u8>>,
}

impl HdlcLl {
    /// Frame check kind.
    pub closed spec fn crc_type(&self) -> HdlcCrcT {
        self.crc_type
    }

    /// Largest body (payload and check field) the receiver keeps.
    pub closed spec fn phys_mtu(&self) -> nat {
        self.phys_mtu as nat
    }

    /// The receiver's state.
    pub closed spec fn rx_model(&self) -> RxModel {
        RxModel {
            phase: self.rx_state,
            buf: self.rx_buf@,
            escape: self.rx_escape,
            frames: vecs_view(self.rx_frames@),
        }
    }

    /// The payload being transmitted, if any.
    pub closed spec fn tx_frame(&self) -> Option<Seq<u8>> {
        match self.tx_data {
            Some(d) => Some(d@),
            None => None,
        }
    }

    /// Payloads whose transmission completed, not yet retrieved, oldest first.
    pub closed spec fn sent_frames(&self) -> Seq<Seq<u8>> {
        vecs_view(self.tx_sent_frames@)
    }

    spec fn tx_check_bytes(&self) -> Seq<u8> {
        match self.tx_data {
            Some(d) => le_bytes(crc_value(self.crc_type, d@), crc_field_size(self.crc_type)),
            None => Seq::empty(),
        }
    }

    /// Number of bytes of the frame being transmitted (see [`ll_encode`])
    /// that were already handed out.
    pub closed spec fn tx_progress(&self) -> nat {
        match self.tx_data {
            None => 0,
            Some(d) => {
                let cb = self.tx_check_bytes();
                let esc: nat = if self.tx_escape {
                    1
                } else {
                    0
                };
                match self.tx_state {
                    TxState::Start => 0,
                    TxState::Data => 1 + stuff(d@.take(self.tx_pos as int)).len() + esc,
                    TxState::Crc => 1 + stuff(d@).len() + stuff(
                        cb.take((self.tx_crc_bits_sent / 8) as int),
                    ).len() + esc,
                    TxState::End => 1 + stuff(d@).len() + stuff(cb).len(),
                }
            },
        }
    }

    /// Internal consistency of the state machine.
    pub closed spec fn wf(&self) -> bool {
        &&& self.phys_mtu > 0
        &&& self.rx_state != RxState::End
        &&& self.rx_ptr == self.rx_buf@.len()
        &&& self.rx_buf@.len() <= self.phys_mtu
        &&& (self.tx_data is None ==> self.tx_state == TxState::Start)
        &&& match self.tx_data {
            None => true,
            Some(d) => {
                let cb = self.tx_check_bytes();
                &&& d@.len() > 0
                &&& (self.tx_state != TxState::Start ==> self.tx_crc == crc_value(
                    self.crc_type,
                    d@,
                ))
                &&& (self.tx_state == TxState::Data ==> {
                    &&& self.tx_pos <= d@.len()
                    &&& (self.tx_escape ==> self.tx_pos < d@.len() && is_special(
                        d@[self.tx_pos as int],
                    ))
                })
                &&& (self.tx_state == TxState::Crc ==> {
                    &&& self.tx_crc_bits_sent % 8 == 0
                    &&& self.tx_crc_bits_sent / 8 <= cb.len()
                    &&& (self.tx_escape ==> self.tx_crc_bits_sent / 8 < cb.len() && is_special(
                        cb[(self.tx_crc_bits_sent / 8) as int],
                    ))
                })
            },
        }
    }

    /// Creates an instance; fails with `InvalidData` when the receive buffer
    /// size is 0. The receiver keeps bodies of up to `mtu` plus the check
    /// field size bytes, or `rx_buf_size` bytes when `mtu` is 0.
    pub fn new(init: &HdlcLlInit) -> (r: TinyResult<HdlcLl>)
        requires
            init.mtu == 0 || init.mtu + crc_field_size(init.crc_type) <= usize::MAX,
        ensures
            init.rx_buf_size == 0 ==> r == Err::<HdlcLl, TinyError>(TinyError::InvalidData),
            init.rx_buf_size != 0 ==> (r matches Ok(ll) && {
                &&& ll.wf()
                &&& ll.crc_type() == init.crc_type
                &&& ll.phys_mtu() == (if init.mtu > 0 {
                    (init.mtu + crc_field_size(init.crc_type)) as nat
                } else {
                    init.rx_buf_size as nat
                })
                &&& ll.rx_model() == (RxModel {
                    phase: RxState::Start,
                    buf: Seq::empty(),
                    escape: false,
                    frames: Seq::empty(),
                })
                &&& ll.tx_frame() is None
                &&& ll.sent_frames() == Seq::<Seq<u8>>::empty()
            }),
    {
        if init.rx_buf_size == 0 {
            return Err(TinyError::InvalidData);
        }
        let crc_size = get_crc_field_size(init.crc_type);
        let phys_mtu = if init.mtu > 0 {
            init.mtu + crc_size
        } else {
            init.rx_buf_size
        };
        let ll = HdlcLl {
            crc_type: init.crc_type,
            phys_mtu,
            rx_buf: Vec::with_capacity(init.rx_buf_size),
            rx_state: RxState::Start,
            rx_ptr: 0,
            rx_escape: false,
            tx_state: TxState::Start,
            tx_data: None,
            tx_pos: 0,
            tx_crc: 0,
            tx_crc_bits_sent: 0,
            tx_escape: false,
            rx_frames: Vec::new(),
            tx_sent_frames: Vec::new(),
        };
        assert(vecs_view(ll.rx_frames@) =~= Seq::<Seq<u8>>::empty());
        assert(vecs_view(ll.tx_sent_frames@) =~= Seq::<Seq<u8>>::empty());
        Ok(ll)
    }

    /// Resets the receiver, the transmitter or both. A reset receiver waits
    /// for an opening flag; a reset transmitter drops its frame. Received
    /// and sent frames not yet retrieved are kept.
    pub fn reset(&mut self, flags: ResetFlags)
        requires
            old(self).wf(),
        ensures
            final(self).wf(),
            final(self).crc_type() == old(self).crc_type(),
            final(self).phys_mtu() == old(self).phys_mtu(),
            final(self).sent_frames() == old(self).sent_frames(),
            flags != ResetFlags::TxOnly ==> final(self).rx_model() == (RxModel {
                phase: RxState::Start,
                buf: Seq::empty(),
                escape: false,
                frames: old(self).rx_model().frames,
            }),
            flags == ResetFlags::TxOnly ==> final(self).rx_model() == old(self).rx_model(),
            flags != ResetFlags::RxOnly ==> final(self).tx_frame() is None,
            flags == ResetFlags::RxOnly ==> {
                &&& final(self).tx_frame() == old(self).tx_frame()
                &&& final(self).tx_progress() == old(self).tx_progress()
            },
    {
        if flags != ResetFlags::TxOnly {
            self.rx_state = RxState::Start;
            self.rx_buf.clear();
            self.rx_ptr = 0;
            self.rx_escape = false;
        }
        if flags != ResetFlags::RxOnly {
            self.tx_data = None;
            self.tx_pos = 0;
            self.tx_escape = false;
            self.tx_state = TxState::Start;
            self.tx_crc_bits_sent = 0;
        }
    }

    /// Queues a frame for transmission (the payload is copied).
    ///
    /// An empty payload is accepted and ignored; `Busy` when a frame is
    /// still being transmitted.
    pub fn put_frame(&mut self, data: &[u8]) -> (r: TinyResult<()>)
        requires
            old(self).wf(),
        ensures
            final(self).wf(),
            final(self).crc_type() == old(self).crc_type(),
            final(self).phys_mtu() == old(self).phys_mtu(),
            final(self).rx_model() == old(self).rx_model(),
            final(self).sent_frames() == old(self).sent_frames(),
            data@.len() == 0 ==> r is Ok && final(self).tx_frame() == old(self).tx_frame()
                && final(self).tx_progress() == old(self).tx_progress(),
            data@.len() != 0 && old(self).tx_frame() is Some ==> r == Err::<(), TinyError>(
                TinyError::Busy,
            ) && final(self).tx_frame() == old(self).tx_frame() && final(self).tx_progress()
                == old(self).tx_progress(),
            data@.len() != 0 && old(self).tx_frame() is None ==> r is Ok && final(self).tx_frame()
                == Some(data@) && final(self).tx_progress() == 0,
    {
        if data.len() == 0 {
            return Ok(());
        }
        if self.tx_data.is_some() {
            return Err(TinyError::Busy);
        }
        let v = copy_bytes(data);
        self.tx_data = Some(v);
        self.tx_pos = 0;
        Ok(())
    }

    /// Whether a frame is being transmitted.
    pub fn is_tx_busy(&self) -> (r: bool)
        ensures
            r == self.tx_frame() is Some,
    {
        self.tx_data.is_some()
    }

    /// Processes incoming bytes. Returns the number of bytes consumed and
    /// the error that stopped processing, if any (see [`rx_run`]).
    /// Received frames are kept until retrieved with `get_rx_frame()`.
    pub fn run_rx(&mut self, data: &[u8]) -> (r: (usize, Option<TinyError>))
        requires
            old(self).wf(),
        ensures
            final(self).wf(),
            final(self).crc_type() == old(self).crc_type(),
            final(self).phys_mtu() == old(self).phys_mtu(),
            final(self).tx_frame() == old(self).tx_frame(),
            final(self).tx_progress() == old(self).tx_progress(),
            final(self).sent_frames() == old(self).sent_frames(),
            ({
                let (m, c, e) = rx_run(
                    old(self).crc_type(),
                    old(self).phys_mtu(),
                    old(self).rx_model(),
                    data@,
                );
                &&& final(self).rx_model() == m
                &&& r.0 == c
                &&& r.1 == e
            }),
    {
        let ghost t = self.crc_type;
        let ghost mtu = self.phys_mtu as nat;
        let ghost total = rx_run(t, mtu, self.rx_model(), data@);
        let mut pos: usize = 0;
        assert(data@.skip(0) =~= data@);
        while pos < data.len()
            invariant_except_break
                t == old(self).crc_type,
                mtu == old(self).phys_mtu,
                total == rx_run(t, mtu, old(self).rx_model(), data@),
                self.wf(),
                self.crc_type == t,
                self.phys_mtu == mtu,
                self.tx_frame() == old(self).tx_frame(),
                self.tx_progress() == old(self).tx_progress(),
                self.sent_frames() == old(self).sent_frames(),
                pos <= data@.len(),
                ({
                    let (m, c, e) = rx_run(t, mtu, self.rx_model(), data@.skip(pos as int));
                    total == (m, (c + pos) as nat, e)
                }),
            ensures
                self.wf(),
                self.crc_type == t,
                self.phys_mtu == mtu,
                self.tx_frame() == old(self).tx_frame(),
                self.tx_progress() == old(self).tx_progress(),
                self.sent_frames() == old(self).sent_frames(),
                total == (self.rx_model(), pos as nat, None::<TinyError>),
            decreases data@.len() - pos,
        {
            let byte = data[pos];
            let ghost rest = data@.skip(pos as int);
            assert(rest[0] == byte);
            assert(rest.drop_first() =~= data@.skip(pos + 1));
            pos = pos + 1;
            let err = self.rx_byte(byte);
            if err.is_some() {
                return (pos, err);
            }
        }
        (pos, None)
    }

    /// One input byte of the receiver.
    fn rx_byte(&mut self, byte: u8) -> (e: Option<TinyError>)
        requires
            old(self).wf(),
        ensures
            final(self).wf(),
            final(self).crc_type == old(self).crc_type,
            final(self).phys_mtu == old(self).phys_mtu,
            final(self).tx_frame() == old(self).tx_frame(),
            final(self).tx_progress() == old(self).tx_progress(),
            final(self).sent_frames() == old(self).sent_frames(),
            rx_step(old(self).crc_type, old(self).phys_mtu as nat, old(self).rx_model(), byte) == (
            final(self).rx_model(),
            e,
            ),
    {
        match self.rx_state {
            RxState::Data => {
                if byte == FLAG_SEQUENCE {
                    if self.rx_buf.len() == 0 {
                        self.rx_escape = false;
                        return None;
                    }
                    return self.rx_frame_end();
                }
                if byte == ESCAPE_CHAR {
                    self.rx_escape = true;
                    return None;
                }
                let decoded = if self.rx_escape {
                    self.rx_escape = false;
                    byte ^ ESCAPE_BIT
                } else {
                    byte
                };
                if self.rx_ptr < self.phys_mtu {
                    self.rx_buf.push(decoded);
                    self.rx_ptr = self.rx_ptr + 1;
                }
                None
            },
            _ => {
                if byte == FLAG_SEQUENCE {
                    self.rx_escape = false;
                    self.rx_buf.clear();
                    self.rx_ptr = 0;
                    self.rx_state = RxState::Data;
                }
                None
            },
        }
    }

    /// Closing flag with a non-empty body: checks and stores the frame.
    fn rx_frame_end(&mut self) -> (e: Option<TinyError>)
        requires
            old(self).wf(),
            old(self).rx_state == RxState::Data,
            old(self).rx_buf@.len() > 0,
        ensures
            final(self).wf(),
            final(self).crc_type == old(self).crc_type,
            final(self).phys_mtu == old(self).phys_mtu,
            final(self).tx_frame() == old(self).tx_frame(),
            final(self).tx_progress() == old(self).tx_progress(),
            final(self).sent_frames() == old(self).sent_frames(),
            rx_frame_end(old(self).crc_type, old(self).phys_mtu as nat, old(self).rx_model()) == (
            final(self).rx_model(),
            e,
            ),
    {
        self.rx_state = RxState::Start;
        let len = self.rx_buf.len();
        if len > self.phys_mtu {
            return Some(TinyError::DataTooLarge);
        }
        let crc_size = get_crc_field_size(self.crc_type);
        if len < crc_size {
            return Some(TinyError::WrongCrc);
        }
        let payload_len = len - crc_size;
        let calc_crc = crc_compute(self.crc_type, self.rx_buf.as_slice(), payload_len);
        let read_crc = self.read_crc_from_buffer(payload_len);
        if calc_crc != read_crc {
            return Some(TinyError::WrongCrc);
        }
        let ghost old_frames = self.rx_frames@;
        let mut frame: Vec<u8> = Vec::with_capacity(self.phys_mtu);
        std::mem::swap(&mut frame, &mut self.rx_buf);
        frame.truncate(payload_len);
        self.rx_frames.push(frame);
        self.rx_ptr = 0;
        proof {
            assert(self.rx_buf@ =~= Seq::<u8>::empty());
            assert(vecs_view(self.rx_frames@) =~= vecs_view(old_frames).push(frame@));
        }
        None
    }

    /// Reads the little-endian check field that follows the payload.
    fn read_crc_from_buffer(&self, payload_len: usize) -> (r: u32)
        requires
            payload_len + crc_field_size(self.crc_type) == self.rx_buf@.len(),
        ensures
            r == le_value(self.rx_buf@.skip(payload_len as int)),
    {
        let crc_size = get_crc_field_size(self.crc_type);
        let ghost tail = self.rx_buf@.skip(payload_len as int);
        if crc_size == 0 {
            assert(tail =~= Seq::<u8>::empty());
            return 0;
        }
        let mut crc_val: u32 = 0;
        let mut i: usize = 0;
        assert(tail.take(0) =~= Seq::<u8>::empty());
        while i < crc_size
            invariant
                i <= crc_size <= 4,
                payload_len + crc_size == self.rx_buf.len(),
                tail == self.rx_buf@.skip(payload_len as int),
                crc_val == le_value(tail.take(i as int)),
            decreases crc_size - i,
        {
            assert(tail.take(i + 1).drop_last() =~= tail.take(i as int));
            crc_val = crc_val | ((self.rx_buf[payload_len + i] as u32) << ((i * 8) as u32));
            i = i + 1;
        }
        assert(tail.take(crc_size as int) =~= tail);
        crc_val
    }

    /// Retrieves the oldest received frame, if any.
    pub fn get_rx_frame(&mut self) -> (r: Option<Vec<u8>>)
        requires
            old(self).wf(),
        ensures
            final(self).wf(),
            final(self).crc_type() == old(self).crc_type(),
            final(self).phys_mtu() == old(self).phys_mtu(),
            final(self).tx_frame() == old(self).tx_frame(),
            final(self).tx_progress() == old(self).tx_progress(),
            final(self).sent_frames() == old(self).sent_frames(),
            old(self).rx_model().frames.len() == 0 ==> r is None && final(self).rx_model()
                == old(self).rx_model(),
            old(self).rx_model().frames.len() > 0 ==> (r matches Some(f) && f@ == old(
                self,
            ).rx_model().frames[0] && final(self).rx_model() == (RxModel {
                frames: old(self).rx_model().frames.drop_first(),
                ..old(self).rx_model()
            })),
    {
        if self.rx_frames.len() == 0 {
            None
        } else {
            let ghost before = self.rx_frames@;
            let f = self.rx_frames.remove(0);
            assert(vecs_view(self.rx_frames@) =~= vecs_view(before).drop_first());
            Some(f)
        }
    }

    /// Retrieves the oldest frame whose transmission completed, if any.
    pub fn get_tx_sent_frame(&mut self) -> (r: Option<Vec<u8>>)
        requires
            old(self).wf(),
        ensures
            final(self).wf(),
            final(self).crc_type() == old(self).crc_type(),
            final(self).phys_mtu() == old(self).phys_mtu(),
            final(self).tx_frame() == old(self).tx_frame(),
            final(self).tx_progress() == old(self).tx_progress(),
            final(self).rx_model() == old(self).rx_model(),
            old(self).sent_frames().len() == 0 ==> r is None && final(self).sent_frames() == old(
                self,
            ).sent_frames(),
            old(self).sent_frames().len() > 0 ==> (r matches Some(f) && f@ == old(
                self,
            ).sent_frames()[0] && final(self).sent_frames() == old(
                self,
            ).sent_frames().drop_first()),
    {
        if self.tx_sent_frames.len() == 0 {
            None
        } else {
            let ghost before = self.tx_sent_frames@;
            let f = self.tx_sent_frames.remove(0);
            assert(vecs_view(self.tx_sent_frames@) =~= vecs_view(before).drop_first());
            Some(f)
        }
    }

    /// Returns the buffer size needed for a given MTU and frame check kind.
    pub fn get_buf_size(mtu: usize, crc_type: HdlcCrcT) -> (r: usize)
        requires
            mtu + crc_field_size(crc_type) <= usize::MAX,
        ensures
            r == mtu + crc_field_size(crc_type),
    {
        mtu + get_crc_field_size(crc_type)
    }
}


/// Rank of a transmitter phase: phase changes that hand out no byte lower it.
pub open spec fn tx_rank(s: TxState) -> nat {
    match s {
        TxState::Start => 3,
        TxState::Data => 2,
        TxState::Crc => 1,
        TxState::End => 0,
    }
}

/// `base` with `bytes` written from position `off` on.
pub open spec fn splice(base: Seq<u8>, off: int, bytes: Seq<u8>) -> Seq<u8> {
    base.take(off) + bytes + base.skip(off + bytes.len())
}

proof fn lemma_stuff_at(s: Seq<u8>, p: int)
    requires
        0 <= p < s.len(),
    ensures
        stuff(s.take(p + 1)).len() == stuff(s.take(p)).len() + stuff_byte(s[p]).len(),
        stuff(s.take(p + 1)).len() <= stuff(s).len(),
        forall|m: int|
            0 <= m < stuff_byte(s[p]).len() ==> stuff(s)[stuff(s.take(p)).len() + m]
                == stuff_byte(s[p])[m],
{
    lemma_stuff_take_succ(s, p);
    lemma_stuff_append(s.take(p + 1), s.skip(p + 1));
    assert(s.take(p + 1) + s.skip(p + 1) =~= s);
    let a = stuff(s.take(p));
    let t = stuff_byte(s[p]);
    assert forall|m: int| 0 <= m < t.len() implies stuff(s)[a.len() + m] == t[m] by {
        assert(stuff(s.take(p + 1))[a.len() + m] == t[m]);
    }
}

/// Layout of the transmitted frame: opening flag, stuffed payload, stuffed
/// check field, closing flag.
proof fn lemma_ll_layout(crc_type: HdlcCrcT, d: Seq<u8>)
    ensures
        ({
            let e = ll_encode(crc_type, d);
            let cb = le_bytes(crc_value(crc_type, d), crc_field_size(crc_type));
            let a = stuff(d);
            let b = stuff(cb);
            &&& e.len() == 2 + a.len() + b.len()
            &&& e[0] == FLAG_SEQUENCE
            &&& e[e.len() - 1] == FLAG_SEQUENCE
            &&& forall|i: int| 0 <= i < a.len() ==> e[1 + i] == a[i]
            &&& forall|i: int| 0 <= i < b.len() ==> e[1 + a.len() + i] == b[i]
        }),
{
    let cb = le_bytes(crc_value(crc_type, d), crc_field_size(crc_type));
    lemma_stuff_append(d, cb);
    let e = ll_encode(crc_type, d);
    assert(e =~= seq![FLAG_SEQUENCE] + stuff(d) + stuff(cb) + seq![FLAG_SEQUENCE]);
}

impl HdlcLl {
    /// The bytes of the frame being transmitted.
    pub closed spec fn tx_encoded(&self) -> Seq<u8> {
        match self.tx_data {
            Some(d) => ll_encode(self.crc_type, d@),
            None => Seq::empty(),
        }
    }

    /// How one step (or a whole `run_tx`) of the transmitter relates the
    /// state and the output buffer before and after it: `w` bytes of the
    /// frame are handed out at position `off`.
    pub closed spec fn tx_advanced(
        pre: HdlcLl,
        post: HdlcLl,
        pre_out: Seq<u8>,
        post_out: Seq<u8>,
        off: int,
        w: int,
    ) -> bool {
        &&& post.wf()
        &&& post.crc_type == pre.crc_type
        &&& post.phys_mtu == pre.phys_mtu
        &&& post.rx_model() == pre.rx_model()
        &&& post_out.len() == pre_out.len()
        &&& 0 <= w
        &&& off + w <= pre_out.len()
        &&& match pre.tx_frame() {
            None => {
                &&& w == 0
                &&& post_out == pre_out
                &&& post.tx_frame() is None
                &&& post.sent_frames() == pre.sent_frames()
                &&& post.tx_state == pre.tx_state
            },
            Some(d) => {
                let e = ll_encode(pre.crc_type, d);
                let k = pre.tx_progress();
                &&& k + w <= e.len()
                &&& post_out == splice(pre_out, off, e.subrange(k as int, k + w))
                &&& if k + w == e.len() {
                    &&& post.tx_frame() is None
                    &&& post.sent_frames() == pre.sent_frames().push(d)
                } else {
                    &&& post.tx_frame() == Some(d)
                    &&& post.tx_progress() == k + w
                    &&& post.sent_frames() == pre.sent_frames()
                }
            },
        }
    }

    /// Fills `out` with the next bytes of the frame being transmitted and
    /// returns how many were written: as many as fit, up to the end of the
    /// frame. When the closing flag is written, the frame is complete and
    /// moves to the sent frames.
    pub fn run_tx(&mut self, out: &mut [u8]) -> (r: usize)
        requires
            old(self).wf(),
        ensures
            final(self).wf(),
            final(self).crc_type() == old(self).crc_type(),
            final(self).phys_mtu() == old(self).phys_mtu(),
            final(self).rx_model() == old(self).rx_model(),
            final(out)@.len() == old(out)@.len(),
            match old(self).tx_frame() {
                None => {
                    &&& r == 0
                    &&& final(out)@ == old(out)@
                    &&& final(self).tx_frame() is None
                    &&& final(self).sent_frames() == old(self).sent_frames()
                },
                Some(d) => {
                    let e = ll_encode(old(self).crc_type(), d);
                    let k = old(self).tx_progress();
                    &&& k < e.len()
                    &&& r == if old(out)@.len() < e.len() - k {
                        old(out)@.len() as int
                    } else {
                        e.len() - k
                    }
                    &&& final(out)@ == splice(old(out)@, 0, e.subrange(k as int, k + r))
                    &&& if k + r == e.len() {
                        &&& final(self).tx_frame() is None
                        &&& final(self).sent_frames() == old(self).sent_frames().push(d)
                    } else {
                        &&& final(self).tx_frame() == Some(d)
                        &&& final(self).tx_progress() == k + r
                        &&& final(self).sent_frames() == old(self).sent_frames()
                    }
                },
            },
    {
        let ghost pre = *self;
        let ghost pre_out = out@;
        proof {
            self.lemma_progress_bound();
        }
        let mut written: usize = 0;
        assert(splice(pre_out, 0, Seq::<u8>::empty()) =~= pre_out);
        proof {
            if let Some(d) = pre.tx_frame() {
                let e = ll_encode(pre.crc_type, d);
                let k = pre.tx_progress();
                assert(e.subrange(k as int, k as int) =~= Seq::<u8>::empty());
            }
        }
        while written < out.len()
            invariant_except_break
                pre == *old(self),
                pre_out == old(out)@,
                written <= out@.len(),
                HdlcLl::tx_advanced(pre, *self, pre_out, out@, 0, written as int),
            ensures
                HdlcLl::tx_advanced(pre, *self, pre_out, out@, 0, written as int),
                written == out@.len() || match pre.tx_frame() {
                    None => true,
                    Some(d) => pre.tx_progress() + written == ll_encode(pre.crc_type, d).len(),
                },
            decreases out@.len() - written, tx_rank(self.tx_state),
        {
            let prev_state = self.tx_state;
            let ghost mid = *self;
            let ghost mid_out = out@;
            let result = match self.tx_state {
                TxState::Start => self.tx_send_start(out, written),
                TxState::Data => self.tx_send_data(out, written),
                TxState::Crc => self.tx_send_crc(out, written),
                TxState::End => self.tx_send_end(out, written),
            };
            proof {
                HdlcLl::lemma_tx_compose(pre, mid, *self, pre_out, mid_out, out@, written as int, result as int);
            }
            if result == 0 {
                if self.tx_state == prev_state {
                    assert(mid.tx_frame() is None);
                    proof {
                        HdlcLl::lemma_tx_stuck(pre, mid, *self, pre_out, mid_out, out@, written as int);
                    }
                    break;
                }
            } else {
                written = written + result;
            }
        }
        proof {
            if let Some(d) = pre.tx_frame() {
                let e = ll_encode(pre.crc_type, d);
                assert(pre.tx_progress() + written <= e.len());
            }
        }
        written
    }

    /// An idle transmitter has handed out nothing.
    pub proof fn lemma_idle_progress(&self)
        ensures
            self.tx_frame() is None ==> self.tx_progress() == 0,
    {
    }

    proof fn lemma_progress_bound(&self)
        requires
            self.wf(),
        ensures
            self.tx_frame() matches Some(d) ==> self.tx_progress() < ll_encode(self.crc_type, d).len(),
    {
        if let Some(d) = self.tx_data {
            let cb = self.tx_check_bytes();
            lemma_ll_layout(self.crc_type, d@);
            lemma_stuff_len(d@);
            match self.tx_state {
                TxState::Data => {
                    if self.tx_pos < d@.len() {
                        lemma_stuff_at(d@, self.tx_pos as int);
                    } else {
                        assert(d@.take(self.tx_pos as int) =~= d@);
                    }
                },
                TxState::Crc => {
                    let j = (self.tx_crc_bits_sent / 8) as int;
                    if j < cb.len() {
                        lemma_stuff_at(cb, j);
                    } else {
                        assert(cb.take(j) =~= cb);
                    }
                },
                _ => {},
            }
        }
    }

    proof fn lemma_tx_compose(
        pre: HdlcLl,
        mid: HdlcLl,
        post: HdlcLl,
        pre_out: Seq<u8>,
        mid_out: Seq<u8>,
        post_out: Seq<u8>,
        written: int,
        w: int,
    )
        requires
            HdlcLl::tx_advanced(pre, mid, pre_out, mid_out, 0, written),
            HdlcLl::tx_advanced(mid, post, mid_out, post_out, written, w),
            written < pre_out.len(),
        ensures
            HdlcLl::tx_advanced(pre, post, pre_out, post_out, 0, written + w),
    {
        if let Some(d) = pre.tx_frame() {
            let e = ll_encode(pre.crc_type, d);
            let k = pre.tx_progress();
            if mid.tx_frame() is Some {
                assert(splice(mid_out, written, e.subrange(k + written, k + written + w)) =~= splice(
                    pre_out,
                    0,
                    e.subrange(k as int, k + written + w),
                ));
            } else {
                assert(w == 0);
                assert(post_out == mid_out);
            }
        }
    }

    proof fn lemma_tx_stuck(
        pre: HdlcLl,
        mid: HdlcLl,
        post: HdlcLl,
        pre_out: Seq<u8>,
        mid_out: Seq<u8>,
        post_out: Seq<u8>,
        written: int,
    )
        requires
            HdlcLl::tx_advanced(pre, mid, pre_out, mid_out, 0, written),
            HdlcLl::tx_advanced(mid, post, mid_out, post_out, written, 0),
            mid.tx_frame() is None,
            written < pre_out.len(),
        ensures
            match pre.tx_frame() {
                None => true,
                Some(d) => pre.tx_progress() + written == ll_encode(pre.crc_type, d).len(),
            },
    {
    }

    fn tx_send_start(&mut self, out: &mut [u8], off: usize) -> (w: usize)
        requires
            old(self).wf(),
            old(self).tx_state == TxState::Start,
            off < old(out)@.len(),
        ensures
            HdlcLl::tx_advanced(*old(self), *final(self), old(out)@, final(out)@, off as int, w as int),
            w > 0 || old(self).tx_frame() is None || tx_rank(final(self).tx_state) < tx_rank(
                old(self).tx_state,
            ),
    {
        let crc = match &self.tx_data {
            None => {
                return 0;
            },
            Some(d) => crc_compute(self.crc_type, d.as_slice(), d.len()),
        };
        proof {
            let d = self.tx_data->0@;
            assert(d.take(d.len() as int) =~= d);
            lemma_ll_layout(self.crc_type, d);
        }
        self.tx_crc = crc;
        out[off] = FLAG_SEQUENCE;
        self.tx_state = TxState::Data;
        self.tx_pos = 0;
        self.tx_escape = false;
        proof {
            let d = self.tx_data->0@;
            assert(d.take(0) =~= Seq::<u8>::empty());
            let e = ll_encode(self.crc_type, d);
            assert(out@ =~= splice(old(out)@, off as int, e.subrange(0, 1)));
            self.lemma_progress_bound();
        }
        1
    }


    fn tx_send_data(&mut self, out: &mut [u8], off: usize) -> (w: usize)
        requires
            old(self).wf(),
            old(self).tx_state == TxState::Data,
            off < old(out)@.len(),
        ensures
            HdlcLl::tx_advanced(*old(self), *final(self), old(out)@, final(out)@, off as int, w as int),
            w > 0 || old(self).tx_frame() is None || tx_rank(final(self).tx_state) < tx_rank(
                old(self).tx_state,
            ),
    {
        let ghost d = self.tx_data->0@;
        let ghost e = self.tx_encoded();
        proof {
            lemma_ll_layout(self.crc_type, d);
            lemma_stuff_len(d);
        }
        let len = match &self.tx_data {
            Some(v) => v.len(),
            None => 0,
        };
        if self.tx_pos >= len {
            self.tx_state = TxState::Crc;
            self.tx_crc_bits_sent = 0;
            self.tx_escape = false;
            proof {
                assert(d.take(self.tx_pos as int) =~= d);
                let cb = self.tx_check_bytes();
                assert(cb.take(0) =~= Seq::<u8>::empty());
                assert(out@ =~= splice(old(out)@, off as int, e.subrange(old(self).tx_progress() as int, old(self).tx_progress() as int)));
            }
            return 0;
        }
        let byte = match &self.tx_data {
            Some(v) => v[self.tx_pos],
            None => 0,
        };
        let ghost p = self.tx_pos as int;
        let ghost base: int = (1 + stuff(d.take(p)).len()) as int;
        proof {
            lemma_stuff_at(d, p);
        }
        if byte == FLAG_SEQUENCE || byte == ESCAPE_CHAR {
            if !self.tx_escape {
                out[off] = ESCAPE_CHAR;
                self.tx_escape = true;
                proof {
                    assert(e[base] == stuff_byte(byte)[0]);
                    assert(out@ =~= splice(old(out)@, off as int, e.subrange(base, base + 1)));
                    self.lemma_progress_bound();
                }
                return 1;
            } else {
                out[off] = byte ^ ESCAPE_BIT;
                self.tx_escape = false;
                self.tx_pos = self.tx_pos + 1;
                proof {
                    assert(e[base + 1] == stuff_byte(byte)[1]);
                    assert(out@ =~= splice(old(out)@, off as int, e.subrange(base + 1, base + 2)));
                    self.lemma_progress_bound();
                }
                return 1;
            }
        }
        let mut written: usize = 0;
        proof {
            assert(old(self).tx_progress() == base);
            assert(e.subrange(base, base) =~= Seq::<u8>::empty());
            assert(out@ =~= splice(old(out)@, off as int, e.subrange(base, base)));
        }
        while off + written < out.len() && self.tx_pos < len
            invariant_except_break
                off < old(out)@.len(),
                written == 0 ==> self.tx_pos < len && !is_special(d[self.tx_pos as int]),
                off + written <= out.len(),
                old(self).wf(),
                old(self).tx_state == TxState::Data,
                self.tx_data == old(self).tx_data,
                self.tx_state == TxState::Data,
                self.tx_escape == false,
                old(self).tx_escape == false,
                self.tx_crc == old(self).tx_crc,
                self.crc_type == old(self).crc_type,
                self.phys_mtu == old(self).phys_mtu,
                self.rx_buf == old(self).rx_buf,
                self.rx_state == old(self).rx_state,
                self.rx_ptr == old(self).rx_ptr,
                self.rx_escape == old(self).rx_escape,
                self.rx_frames == old(self).rx_frames,
                self.tx_sent_frames == old(self).tx_sent_frames,
                self.tx_crc_bits_sent == old(self).tx_crc_bits_sent,
                d == self.tx_data->0@,
                len == d.len(),
                e == ll_encode(self.crc_type, d),
                e.len() == 2 + stuff(d).len() + stuff(self.tx_check_bytes()).len(),
                forall|i: int| 0 <= i < stuff(d).len() ==> e[1 + i] == stuff(d)[i],
                self.tx_pos <= len,
                self.tx_pos == old(self).tx_pos + written,
                off + written <= out@.len(),
                out@.len() == old(out)@.len(),
                1 + stuff(d.take(self.tx_pos as int)).len() == old(self).tx_progress() + written,
                out@ == splice(old(out)@, off as int, e.subrange(old(self).tx_progress() as int, old(self).tx_progress() + written)),
            ensures
                self.tx_data == old(self).tx_data,
                self.tx_state == TxState::Data,
                self.tx_escape == false,
                self.tx_crc == old(self).tx_crc,
                self.crc_type == old(self).crc_type,
                self.phys_mtu == old(self).phys_mtu,
                self.rx_buf == old(self).rx_buf,
                self.rx_state == old(self).rx_state,
                self.rx_ptr == old(self).rx_ptr,
                self.rx_escape == old(self).rx_escape,
                self.rx_frames == old(self).rx_frames,
                self.tx_sent_frames == old(self).tx_sent_frames,
                self.tx_crc_bits_sent == old(self).tx_crc_bits_sent,
                self.tx_pos <= len,
                off + written <= out@.len(),
                out@.len() == old(out)@.len(),
                1 + stuff(d.take(self.tx_pos as int)).len() == old(self).tx_progress() + written,
                out@ == splice(old(out)@, off as int, e.subrange(old(self).tx_progress() as int, old(self).tx_progress() + written)),
                written > 0,
            decreases len - self.tx_pos,
        {
            let b = match &self.tx_data {
                Some(v) => v[self.tx_pos],
                None => 0,
            };
            if b == FLAG_SEQUENCE || b == ESCAPE_CHAR {
                break;
            }
            let ghost q = self.tx_pos as int;
            let ghost k = old(self).tx_progress() + written;
            proof {
                lemma_stuff_at(d, q);
                assert(d[q] == b);
                assert(stuff_byte(b) == seq![b]);
                assert(stuff_byte(d[q]).len() == 1);
                assert(stuff_byte(d[q])[0] == b);
                let i = stuff(d.take(q)).len() as int;
                assert(stuff(d)[i + 0] == b);
                assert(e[1 + i] == stuff(d)[i]);
                assert(e[k] == b);
            }
            out[off + written] = b;
            written = written + 1;
            self.tx_pos = self.tx_pos + 1;
            proof {
                assert(out@ =~= splice(old(out)@, off as int, e.subrange(old(self).tx_progress() as int, old(self).tx_progress() + written)));
            }
        }
        proof {
            self.lemma_progress_bound();
        }
        written
    }

    #[verifier::rlimit(50)]
    fn tx_send_crc(&mut self, out: &mut [u8], off: usize) -> (w: usize)
        requires
            old(self).wf(),
            old(self).tx_state == TxState::Crc,
            off < old(out)@.len(),
        ensures
            HdlcLl::tx_advanced(*old(self), *final(self), old(out)@, final(out)@, off as int, w as int),
            w > 0 || old(self).tx_frame() is None || tx_rank(final(self).tx_state) < tx_rank(
                old(self).tx_state,
            ),
    {
        let ghost d = self.tx_data->0@;
        let ghost e = self.tx_encoded();
        let ghost cb = self.tx_check_bytes();
        proof {
            lemma_ll_layout(self.crc_type, d);
        }
        let crc_size = get_crc_field_size(self.crc_type) as u8;
        if self.tx_crc_bits_sent >= crc_size * 8 {
            self.tx_state = TxState::End;
            proof {
                assert(cb.take((old(self).tx_crc_bits_sent / 8) as int) =~= cb);
                assert(out@ =~= splice(old(out)@, off as int, e.subrange(old(self).tx_progress() as int, old(self).tx_progress() as int)));
            }
            return 0;
        }
        let byte = (self.tx_crc >> (self.tx_crc_bits_sent as u32)) as u8;
        let ghost j = (self.tx_crc_bits_sent / 8) as int;
        let ghost base: int = (1 + stuff(d).len() + stuff(cb.take(j)).len()) as int;
        proof {
            assert(byte == cb[j]);
            lemma_stuff_at(cb, j);
        }
        if byte == FLAG_SEQUENCE || byte == ESCAPE_CHAR {
            if !self.tx_escape {
                out[off] = ESCAPE_CHAR;
                self.tx_escape = true;
                proof {
                    assert(e[base] == stuff_byte(byte)[0]);
                    assert(out@ =~= splice(old(out)@, off as int, e.subrange(base, base + 1)));
                    self.lemma_progress_bound();
                }
                return 1;
            } else {
                out[off] = byte ^ ESCAPE_BIT;
                self.tx_escape = false;
                self.tx_crc_bits_sent = self.tx_crc_bits_sent + 8;
                proof {
                    assert(e[base + 1] == stuff_byte(byte)[1]);
                    assert(out@ =~= splice(old(out)@, off as int, e.subrange(base + 1, base + 2)));
                    self.lemma_progress_bound();
                }
                return 1;
            }
        }
        out[off] = byte;
        self.tx_crc_bits_sent = self.tx_crc_bits_sent + 8;
        proof {
            assert(e[base] == stuff_byte(byte)[0]);
            assert(out@ =~= splice(old(out)@, off as int, e.subrange(base, base + 1)));
            self.lemma_progress_bound();
        }
        1
    }

    fn tx_send_end(&mut self, out: &mut [u8], off: usize) -> (w: usize)
        requires
            old(self).wf(),
            old(self).tx_state == TxState::End,
            off < old(out)@.len(),
        ensures
            HdlcLl::tx_advanced(*old(self), *final(self), old(out)@, final(out)@, off as int, w as int),
            w > 0 || old(self).tx_frame() is None || tx_rank(final(self).tx_state) < tx_rank(
                old(self).tx_state,
            ),
    {
        proof {
            let d = self.tx_data->0@;
            lemma_ll_layout(self.crc_type, d);
        }
        let ghost e = self.tx_encoded();
        let ghost before = self.tx_sent_frames@;
        out[off] = FLAG_SEQUENCE;
        self.tx_state = TxState::Start;
        self.tx_escape = false;
        let mut taken: Option<Vec<u8>> = None;
        std::mem::swap(&mut taken, &mut self.tx_data);
        if let Some(frame) = taken {
            self.tx_sent_frames.push(frame);
            proof {
                assert(vecs_view(self.tx_sent_frames@) =~= vecs_view(before).push(frame@));
            }
        }
        proof {
            assert(out@ =~= splice(old(out)@, off as int, e.subrange(e.len() - 1, e.len() as int)));
        }
        1
    }
}

/// Copies a byte slice into a new vector.
pub fn copy_bytes(data: &[u8]) -> (v: Vec<u8>)
    ensures
        v@ == data@,
{
    let mut v: Vec<u8> = Vec::with_capacity(data.len());
    let mut i: usize = 0;
    while i < data.len()
        invariant
            i <= data@.len(),
            v@ == data@.take(i as int),
        decreases data@.len() - i,
    {
        v.push(data[i]);
        i = i + 1;
        assert(v@ =~= data@.take(i as int));
    }
    assert(data@.take(data@.len() as int) =~= data@);
    v
}

} // verus!

verus! {

/// Feeding input in two pieces, the second after the first was processed
/// without error, gives the same receiver state, byte count and error as
/// feeding it at once.
pub proof fn lemma_rx_run_append(
    crc_type: HdlcCrcT,
    mtu: nat,
    s: RxModel,
    a: Seq<u8>,
    b: Seq<u8>,
)
    requires
        rx_run(crc_type, mtu, s, a).2 is None,
    ensures
        ({
            let (s1, c1, _e1) = rx_run(crc_type, mtu, s, a);
            let (s2, c2, e2) = rx_run(crc_type, mtu, s1, b);
            rx_run(crc_type, mtu, s, a + b) == (s2, c1 + c2, e2)
        }),
    decreases a.len(),
{
    if a.len() == 0 {
        assert(a + b =~= b);
    } else {
        assert((a + b)[0] == a[0]);
        assert((a + b).drop_first() =~= a.drop_first() + b);
        let (s1, e) = rx_step(crc_type, mtu, s, a[0]);
        lemma_rx_run_append(crc_type, mtu, s1, a.drop_first(), b);
    }
}

proof fn lemma_rx_run_one(crc_type: HdlcCrcT, mtu: nat, s: RxModel, x: u8)
    ensures
        ({
            let (s1, e) = rx_step(crc_type, mtu, s, x);
            rx_run(crc_type, mtu, s, seq![x]) == (s1, 1nat, e)
        }),
{
    let one = seq![x];
    assert(one.drop_first() =~= Seq::<u8>::empty());
    let (s1, e) = rx_step(crc_type, mtu, s, x);
    assert(rx_run(crc_type, mtu, s1, Seq::<u8>::empty()) == (s1, 0nat, None::<TinyError>));
}

proof fn lemma_rx_stuffed(crc_type: HdlcCrcT, mtu: nat, s: RxModel, x: Seq<u8>)
    requires
        s.phase == RxState::Data,
        !s.escape,
        s.buf.len() + x.len() <= mtu,
    ensures
        rx_run(crc_type, mtu, s, stuff(x)) == (
        RxModel { buf: s.buf + x, escape: false, ..s },
        stuff(x).len(),
        None::<TinyError>,
        ),
    decreases x.len(),
{
    if x.len() == 0 {
        assert(s.buf + x =~= s.buf);
    } else {
        let p = x.drop_last();
        let v = x.last();
        lemma_rx_stuffed(crc_type, mtu, s, p);
        lemma_rx_run_append(crc_type, mtu, s, stuff(p), stuff_byte(v));
        let mid = RxModel { buf: s.buf + p, escape: false, ..s };
        if is_special(v) {
            let y = v ^ 0x20u8;
            assert(y != 0x7Eu8 && y != 0x7Du8 && (y ^ 0x20u8) == v) by (bit_vector)
                requires
                    v == 0x7Eu8 || v == 0x7Du8,
                    y == v ^ 0x20u8,
            ;
            let t = stuff_byte(v);
            assert(t =~= seq![ESCAPE_CHAR] + seq![y]);
            lemma_rx_run_one(crc_type, mtu, mid, ESCAPE_CHAR);
            let m1 = RxModel { escape: true, ..mid };
            lemma_rx_run_one(crc_type, mtu, m1, y);
            lemma_rx_run_append(crc_type, mtu, mid, seq![ESCAPE_CHAR], seq![y]);
        } else {
            lemma_rx_run_one(crc_type, mtu, mid, v);
        }
        assert((s.buf + p).push(v) =~= s.buf + x);
    }
}

/// A receiver waiting for a frame that is fed the bytes the transmitter
/// sends for a non-empty payload (see [`ll_encode`]) that fits its MTU
/// consumes all of them without error and holds the payload as its newest
/// received frame.
pub proof fn lemma_ll_roundtrip(crc_type: HdlcCrcT, mtu: nat, s: RxModel, d: Seq<u8>)
    requires
        s.phase == RxState::Start,
        d.len() > 0,
        d.len() + crc_field_size(crc_type) <= mtu,
    ensures
        rx_run(crc_type, mtu, s, ll_encode(crc_type, d)) == (
        RxModel {
            phase: RxState::Start,
            buf: Seq::empty(),
            escape: false,
            frames: s.frames.push(d),
        },
        ll_encode(crc_type, d).len(),
        None::<TinyError>,
        ),
{
    let n = crc_field_size(crc_type);
    let body = ll_body(crc_type, d);
    let cb = le_bytes(crc_value(crc_type, d), n);
    let open = seq![FLAG_SEQUENCE];
    let e = ll_encode(crc_type, d);
    assert(e =~= open + stuff(body) + open);
    lemma_rx_run_one(crc_type, mtu, s, FLAG_SEQUENCE);
    let s1 = RxModel { phase: RxState::Data, buf: Seq::empty(), escape: false, ..s };
    lemma_rx_stuffed(crc_type, mtu, s1, body);
    let s2 = RxModel { buf: s1.buf + body, escape: false, ..s1 };
    assert(s1.buf + body =~= body);
    lemma_rx_run_append(crc_type, mtu, s, open, stuff(body));
    lemma_rx_run_one(crc_type, mtu, s2, FLAG_SEQUENCE);
    assert(body.take(body.len() - n) =~= d);
    assert(body.skip(body.len() - n) =~= cb);
    lemma_crc_value_fits(crc_type, d);
    lemma_le_roundtrip(crc_value(crc_type, d), n);
    lemma_rx_run_append(crc_type, mtu, s, open + stuff(body), open);
}

/// For every frame check kind but the default one, the streaming
/// transmitter and the one-shot encoder produce the same bytes.
pub proof fn lemma_ll_matches_encoder(crc_type: HdlcCrcT, d: Seq<u8>)
    requires
        crc_type != HdlcCrcT::HdlcCrcDefault,
    ensures
        ll_encode(crc_type, d) == crate::proto::hdlc::low_level::encode_spec(crc_type, d),
{
    assert(ll_body(crc_type, d) =~= crate::proto::hdlc::low_level::encoder_body(crc_type, d));
}

/// Frame integrity of the receiver, for every kind of frame check: a byte
/// stores a frame only when it is the closing flag and the received body
/// is that frame followed by its frame check value (`n` bytes, least
/// significant first); a body within the receive limit whose check bytes
/// do not match is refused with `WrongCrc` and stores nothing. Frames
/// stored earlier are kept.
pub proof fn lemma_rx_integrity(crc_type: HdlcCrcT, mtu: nat, s: RxModel, b: u8)
    ensures
        ({
            let (s2, e) = rx_step(crc_type, mtu, s, b);
            let n = crc_field_size(crc_type);
            let len = s.buf.len();
            &&& s2.frames.len() >= s.frames.len()
            &&& s2.frames.take(s.frames.len() as int) == s.frames
            &&& s2.frames.len() > s.frames.len() ==> {
                let f = s2.frames.last();
                &&& s.phase == RxState::Data
                &&& b == FLAG_SEQUENCE
                &&& s2.frames == s.frames.push(f)
                &&& len == f.len() + n
                &&& s.buf.take(f.len() as int) == f
                &&& crc_value(crc_type, f) == le_value(s.buf.skip(f.len() as int))
            }
            &&& (s.phase == RxState::Data && b == FLAG_SEQUENCE && 0 < len <= mtu && len >= n
                && crc_value(crc_type, s.buf.take(len - n)) != le_value(s.buf.skip(len - n))) ==> {
                &&& e == Some(TinyError::WrongCrc)
                &&& s2.frames == s.frames
            }
        }),
{
    let (s2, e) = rx_step(crc_type, mtu, s, b);
    assert(s.frames.take(s.frames.len() as int) =~= s.frames);
    if s2.frames.len() > s.frames.len() {
        let n = crc_field_size(crc_type);
        let f = s.buf.take(s.buf.len() - n);
        assert(s2.frames == s.frames.push(f));
        assert(s2.frames.take(s.frames.len() as int) =~= s.frames);
        assert(s.buf.take(f.len() as int) =~= f);
    }
}

} // verus!
