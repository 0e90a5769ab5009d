//! HDLC framing with event bits and user notifications.
//!
//! Adds to the streaming framing layer the bookkeeping of a sender that
//! waits until the framing layer accepts a frame, and the reporting of
//! received and completely sent frames. Reports are queued as
//! [`HdlcEvent`]s in the order in which they happen; the user retrieves
//! them with [`Hdlc::pop_event`].
//!
//! Nothing inside an [`Hdlc`] changes while none of its methods runs, so
//! waiting for an event bit cannot change its outcome: the methods decide
//! at once, and waiting (or moving bytes to and from a channel) is the
//! caller's.
use vstd::prelude::*;
use crate::proto::crc::{HdlcCrcT, crc_field_size};
use crate::proto::error::{TinyError, TinyResult};
use crate::proto::hdlc::low_level_ll::{
    HdlcLl, HdlcLlInit, ResetFlags, RxModel, RxState, rx_run, ll_encode, splice, lemma_ll_roundtrip,
};

verus! {

/// Event bit: the framing layer accepts a new frame.
pub const TX_ACCEPT_BIT: u8 = 0x01;

/// Event bit: a frame was queued for sending.
pub const TX_DATA_READY_BIT: u8 = 0x02;

/// Event bit: a frame was sent completely.
pub const TX_DATA_SENT_BIT: u8 = 0x04;

/// Event bit: a frame was received.
pub const RX_DATA_READY_BIT: u8 = 0x08;

/// Configuration of an [`Hdlc`].
pub struct HdlcConfig {
    /// Frame check kind.
    pub crc_type: HdlcCrcT,
    /// Receive buffer size.
    pub rx_buf_size: usize,
    /// Maximum payload size (0: use the receive buffer size).
    pub mtu: usize,
    /// Whether another thread drives transmission.
    pub multithread_mode: bool,
}

impl Default for HdlcConfig {
    fn default() -> (r: Self)
        ensures
            r.crc_type == HdlcCrcT::HdlcCrc16,
            r.rx_buf_size == 256,
            r.mtu == 0,
            !r.multithread_mode,
    {
        HdlcConfig { crc_type: HdlcCrcT::HdlcCrc16, rx_buf_size: 256, mtu: 0, multithread_mode: false }
    }
}

/// A notification for the user of an [`Hdlc`].
pub enum HdlcEvent {
    /// A frame with this payload was received.
    FrameRead(Vec<u8>),
    /// The frame with this payload was sent completely.
    FrameSent(Vec<u8>),
}

/// Content of an [`HdlcEvent`].
pub enum HdlcNote {
    FrameRead(Seq<u8>),
    FrameSent(Seq<u8>),
}

impl View for HdlcEvent {
    type V = HdlcNote;

    open spec fn view(&self) -> HdlcNote {
        match self {
            HdlcEvent::FrameRead(p) => HdlcNote::FrameRead(p@),
            HdlcEvent::FrameSent(p) => HdlcNote::FrameSent(p@),
        }
    }
}

/// Notes for received frames with these payloads, in order.
pub open spec fn read_notes(frames: Seq<Seq<u8>>) -> Seq<HdlcNote> {
    frames.map_values(|f: Seq<u8>| HdlcNote::FrameRead(f))
}

/// Notes for completely sent frames with these payloads, in order.
pub open spec fn sent_notes(frames: Seq<Seq<u8>>) -> Seq<HdlcNote> {
    frames.map_values(|f: Seq<u8>| HdlcNote::FrameSent(f))
}

/// Event bits after `n` completely sent frames were reported: the sender
/// may go on.
pub open spec fn after_sent(events: u8, n: nat) -> u8 {
    if n > 0 {
        events | TX_DATA_SENT_BIT | TX_ACCEPT_BIT
    } else {
        events
    }
}

/// The bytes that the framing layer hands out into a buffer of `n` bytes
/// from frame `d` of which `k` encoded bytes are already out.
pub open spec fn tx_chunk(crc_type: HdlcCrcT, d: Seq<u8>, k: nat, n: nat) -> Seq<u8> {
    let e = ll_encode(crc_type, d);
    if n < e.len() - k {
        e.subrange(k as int, (k + n) as int)
    } else {
        e.subrange(k as int, e.len() as int)
    }
}

/// HDLC framing with event bits and notifications.
pub struct Hdlc {
    ll: HdlcLl,
    events: u8,
    multithread_mode: bool,
    notes: Vec<HdlcEvent>,
    rx_len: usize,
}

impl Hdlc {
    /// The framing layer.
    pub closed spec fn link(&self) -> HdlcLl {
        self.ll
    }

    /// Event bits.
    pub closed spec fn events_spec(&self) -> u8 {
        self.events
    }

    /// Notifications not yet retrieved, oldest first.
    pub closed spec fn notes(&self) -> Seq<HdlcNote> {
        self.notes@.map_values(|n: HdlcEvent| n@)
    }

    /// Length of the last received frame.
    pub closed spec fn rx_len(&self) -> nat {
        self.rx_len as nat
    }

    /// Whether another thread drives transmission.
    pub closed spec fn multithread(&self) -> bool {
        self.multithread_mode
    }

    /// Consistency between calls: the framing layer is consistent and holds
    /// no received frame that was not reported.
    pub closed spec fn inv(&self) -> bool {
        &&& self.ll.wf()
        &&& self.ll.rx_model().frames.len() == 0
    }

    /// Creates an instance: fails with `InvalidData` when the receive buffer
    /// size is 0. The framing layer accepts a frame at once.
    pub fn new(config: &HdlcConfig) -> (r: TinyResult<Self>)
        requires
            config.mtu == 0 || config.mtu + crc_field_size(config.crc_type) <= usize::MAX,
        ensures
            config.rx_buf_size == 0 ==> r == Err::<Hdlc, TinyError>(TinyError::InvalidData),
            config.rx_buf_size != 0 ==> (r matches Ok(h) && {
                &&& h.inv()
                &&& h.link().crc_type() == config.crc_type
                &&& h.link().phys_mtu() == (if config.mtu > 0 {
                    (config.mtu + crc_field_size(config.crc_type)) as nat
                } else {
                    config.rx_buf_size as nat
                })
                &&& h.link().rx_model() == (RxModel {
                    phase: RxState::Start,
                    buf: Seq::empty(),
                    escape: false,
                    frames: Seq::empty(),
                })
                &&& h.link().tx_frame() is None
                &&& h.link().sent_frames() == Seq::<Seq<u8>>::empty()
                &&& h.events_spec() == TX_ACCEPT_BIT
                &&& h.notes() == Seq::<HdlcNote>::empty()
                &&& h.rx_len() == 0
                &&& h.multithread() == config.multithread_mode
            }),
    {
        let ll = match HdlcLl::new(
            &HdlcLlInit { crc_type: config.crc_type, mtu: config.mtu, rx_buf_size: config.rx_buf_size },
        ) {
            Ok(ll) => ll,
            Err(e) => {
                return Err(e);
            },
        };
        let h = Hdlc {
            ll,
            events: 0u8 | TX_ACCEPT_BIT,
            multithread_mode: config.multithread_mode,
            notes: Vec::new(),
            rx_len: 0,
        };
        assert(h.notes() =~= Seq::<HdlcNote>::empty());
        assert(0u8 | 0x01u8 == 0x01u8) by (bit_vector);
        Ok(h)
    }

    /// Event bits.
    pub fn events(&self) -> (r: u8)
        ensures
            r == self.events_spec(),
    {
        self.events
    }

    /// Whether another thread drives transmission.
    pub fn is_multithread(&self) -> (r: bool)
        ensures
            r == self.multithread(),
    {
        self.multithread_mode
    }

    /// Retrieves the oldest notification not yet retrieved.
    pub fn pop_event(&mut self) -> (r: Option<HdlcEvent>)
        ensures
            final(self).link() == old(self).link(),
            final(self).events_spec() == old(self).events_spec(),
            final(self).rx_len() == old(self).rx_len(),
            final(self).multithread() == old(self).multithread(),
            old(self).notes().len() == 0 ==> r is None && final(self).notes() == old(self).notes(),
            old(self).notes().len() > 0 ==> (r matches Some(ev) && ev@ == old(self).notes()[0]
                && final(self).notes() == old(self).notes().drop_first()),
    {
        if self.notes.len() == 0 {
            return None;
        }
        let ghost before = self.notes@;
        let ev = self.notes.remove(0);
        assert(self.notes@.map_values(|n: HdlcEvent| n@) =~= before.map_values(|n: HdlcEvent| n@).drop_first());
        Some(ev)
    }

    /// Resets both directions of the framing layer (a frame being sent is
    /// dropped) and the event bits: only "accepts a frame" stays set.
    pub fn reset(&mut self)
        requires
            old(self).inv(),
        ensures
            final(self).inv(),
            final(self).link().crc_type() == old(self).link().crc_type(),
            final(self).link().phys_mtu() == old(self).link().phys_mtu(),
            final(self).link().sent_frames() == old(self).link().sent_frames(),
            final(self).link().rx_model() == (RxModel {
                phase: RxState::Start,
                buf: Seq::empty(),
                escape: false,
                frames: Seq::empty(),
            }),
            final(self).link().tx_frame() is None,
            final(self).events_spec() == TX_ACCEPT_BIT,
            final(self).notes() == old(self).notes(),
            final(self).rx_len() == old(self).rx_len(),
            final(self).multithread() == old(self).multithread(),
    {
        assert(self.ll.rx_model().frames =~= Seq::<Seq<u8>>::empty());
        self.ll.reset(ResetFlags::Both);
        let e = self.events;
        self.events = e & !0xFFu8;
        self.events = self.events | TX_ACCEPT_BIT;
        assert((e & !0xFFu8) | 0x01u8 == 0x01u8) by (bit_vector);
    }
}

impl Hdlc {
    /// Processes bytes received from the channel with the framing layer
    /// ([`rx_run`]) and reports every frame that became complete: the
    /// "frame received" bit is set and the last frame's length kept.
    /// Returns the number of bytes consumed and the error met, if any.
    pub fn run_rx(&mut self, data: &[u8]) -> (r: (usize, Option<TinyError>))
        requires
            old(self).inv(),
        ensures
            final(self).inv(),
            final(self).link().crc_type() == old(self).link().crc_type(),
            final(self).link().phys_mtu() == old(self).link().phys_mtu(),
            final(self).link().tx_frame() == old(self).link().tx_frame(),
            final(self).link().tx_progress() == old(self).link().tx_progress(),
            final(self).link().sent_frames() == old(self).link().sent_frames(),
            final(self).multithread() == old(self).multithread(),
            ({
                let (m, c, e) = rx_run(
                    old(self).link().crc_type(),
                    old(self).link().phys_mtu(),
                    old(self).link().rx_model(),
                    data@,
                );
                &&& r.0 == c
                &&& r.1 == e
                &&& final(self).link().rx_model() == (RxModel { frames: Seq::empty(), ..m })
                &&& final(self).notes() == old(self).notes() + read_notes(m.frames)
                &&& final(self).events_spec() == (if m.frames.len() > 0 {
                    old(self).events_spec() | RX_DATA_READY_BIT
                } else {
                    old(self).events_spec()
                })
                &&& final(self).rx_len() == (if m.frames.len() > 0 {
                    m.frames.last().len()
                } else {
                    old(self).rx_len()
                })
            }),
    {
        let r = self.ll.run_rx(data);
        let ghost m = self.ll.rx_model();
        let ghost k: int = 0;
        assert(m.frames.skip(0) =~= m.frames);
        loop
            invariant
                self.ll.wf(),
                self.ll.crc_type() == old(self).ll.crc_type(),
                self.ll.phys_mtu() == old(self).ll.phys_mtu(),
                self.ll.tx_frame() == old(self).ll.tx_frame(),
                self.ll.tx_progress() == old(self).ll.tx_progress(),
                self.ll.sent_frames() == old(self).ll.sent_frames(),
                self.multithread_mode == old(self).multithread_mode,
                0 <= k <= m.frames.len(),
                self.ll.rx_model() == (RxModel { frames: m.frames.skip(k), ..m }),
                self.notes() == old(self).notes() + read_notes(m.frames.take(k)),
                self.events == (if k > 0 {
                    old(self).events | RX_DATA_READY_BIT
                } else {
                    old(self).events
                }),
                self.rx_len == (if k > 0 {
                    m.frames[k - 1].len()
                } else {
                    old(self).rx_len as nat
                }),
            ensures
                k == m.frames.len(),
                self.ll.rx_model().frames.len() == 0,
            decreases m.frames.len() - k,
        {
            match self.ll.get_rx_frame() {
                Some(frame) => {
                    let ghost before = self.notes@;
                    self.rx_len = frame.len();
                    self.notes.push(HdlcEvent::FrameRead(frame));
                    let ev = self.events;
                    self.events = ev | RX_DATA_READY_BIT;
                    proof {
                        assert(m.frames.skip(k).drop_first() =~= m.frames.skip(k + 1));
                        assert(read_notes(m.frames.take(k + 1)) =~= read_notes(m.frames.take(k)).push(
                            HdlcNote::FrameRead(m.frames[k]),
                        ));
                        assert(self.notes@.map_values(|n: HdlcEvent| n@) =~= before.map_values(
                            |n: HdlcEvent| n@,
                        ).push(HdlcNote::FrameRead(m.frames[k])));
                        let oe = old(self).events;
                        assert((oe | 0x08u8) | 0x08u8 == oe | 0x08u8) by (bit_vector);
                        k = k + 1;
                    }
                },
                None => {
                    break;
                },
            }
        }
        proof {
            assert(m.frames.take(k) =~= m.frames);
            assert(m.frames.skip(k) =~= Seq::<Seq<u8>>::empty());
        }
        r
    }

    /// Reports every completely sent frame that the framing layer holds: the
    /// "sent" and "accepts a frame" bits are set when there was one.
    pub fn deliver_sent_frames(&mut self)
        requires
            old(self).inv(),
        ensures
            final(self).inv(),
            final(self).link().crc_type() == old(self).link().crc_type(),
            final(self).link().phys_mtu() == old(self).link().phys_mtu(),
            final(self).link().tx_frame() == old(self).link().tx_frame(),
            final(self).link().tx_progress() == old(self).link().tx_progress(),
            final(self).link().rx_model() == old(self).link().rx_model(),
            final(self).link().sent_frames().len() == 0,
            final(self).notes() == old(self).notes() + sent_notes(old(self).link().sent_frames()),
            final(self).events_spec() == after_sent(
                old(self).events_spec(),
                old(self).link().sent_frames().len(),
            ),
            final(self).rx_len() == old(self).rx_len(),
            final(self).multithread() == old(self).multithread(),
    {
        let ghost s = self.ll.sent_frames();
        let ghost k: int = 0;
        assert(s.skip(0) =~= s);
        loop
            invariant
                self.inv(),
                self.ll.crc_type() == old(self).ll.crc_type(),
                self.ll.phys_mtu() == old(self).ll.phys_mtu(),
                self.ll.tx_frame() == old(self).ll.tx_frame(),
                self.ll.tx_progress() == old(self).ll.tx_progress(),
                self.ll.rx_model() == old(self).ll.rx_model(),
                self.rx_len == old(self).rx_len,
                self.multithread_mode == old(self).multithread_mode,
                s == old(self).ll.sent_frames(),
                0 <= k <= s.len(),
                self.ll.sent_frames() == s.skip(k),
                self.notes() == old(self).notes() + sent_notes(s.take(k)),
                self.events == after_sent(old(self).events, k as nat),
            ensures
                k == s.len(),
            decreases s.len() - k,
        {
            if !self.take_sent_frame() {
                break;
            }
            proof {
                assert(s.skip(k).drop_first() =~= s.skip(k + 1));
                assert(sent_notes(s.take(k + 1)) =~= sent_notes(s.take(k)).push(HdlcNote::FrameSent(s[k])));
                let oe = old(self).events;
                assert(((oe | 0x04u8) | 0x01u8) | 0x04u8 | 0x01u8 == (oe | 0x04u8) | 0x01u8) by (bit_vector);
                k = k + 1;
            }
        }
        proof {
            assert(s.take(k) =~= s);
        }
    }

    /// Reports the oldest completely sent frame that the framing layer
    /// holds, if there is one: the "sent" and "accepts a frame" bits are
    /// set. Returns whether there was one.
    pub fn take_sent_frame(&mut self) -> (r: bool)
        requires
            old(self).inv(),
        ensures
            final(self).inv(),
            final(self).link().crc_type() == old(self).link().crc_type(),
            final(self).link().phys_mtu() == old(self).link().phys_mtu(),
            final(self).link().tx_frame() == old(self).link().tx_frame(),
            final(self).link().tx_progress() == old(self).link().tx_progress(),
            final(self).link().rx_model() == old(self).link().rx_model(),
            final(self).rx_len() == old(self).rx_len(),
            final(self).multithread() == old(self).multithread(),
            r == (old(self).link().sent_frames().len() > 0),
            !r ==> final(self).link().sent_frames() == old(self).link().sent_frames()
                && final(self).notes() == old(self).notes() && final(self).events_spec() == old(
                self,
            ).events_spec(),
            r ==> final(self).link().sent_frames() == old(self).link().sent_frames().drop_first()
                && final(self).notes() == old(self).notes().push(
                HdlcNote::FrameSent(old(self).link().sent_frames()[0]),
            ) && final(self).events_spec() == after_sent(old(self).events_spec(), 1),
    {
        match self.ll.get_tx_sent_frame() {
            Some(frame) => {
                let ghost before = self.notes@;
                self.notes.push(HdlcEvent::FrameSent(frame));
                self.events = self.events | TX_DATA_SENT_BIT | TX_ACCEPT_BIT;
                assert(self.notes@.map_values(|n: HdlcEvent| n@) =~= before.map_values(
                    |n: HdlcEvent| n@,
                ).push(HdlcNote::FrameSent(old(self).ll.sent_frames()[0])));
                true
            },
            None => false,
        }
    }

    /// Hands out bytes of the frame being sent into `out` (see
    /// [`HdlcLl::run_tx`]), then reports the frames sent completely
    /// ([`Hdlc::deliver_sent_frames`]). Returns the number of bytes written.
    pub fn get_tx_data(&mut self, out: &mut [u8]) -> (r: usize)
        requires
            old(self).inv(),
        ensures
            final(self).inv(),
            final(self).link().crc_type() == old(self).link().crc_type(),
            final(self).link().phys_mtu() == old(self).link().phys_mtu(),
            final(self).link().rx_model() == old(self).link().rx_model(),
            final(self).link().sent_frames().len() == 0,
            final(self).rx_len() == old(self).rx_len(),
            final(self).multithread() == old(self).multithread(),
            final(out)@.len() == old(out)@.len(),
            match old(self).link().tx_frame() {
                None => {
                    &&& r == 0
                    &&& final(out)@ == old(out)@
                    &&& final(self).link().tx_frame() is None
                    &&& final(self).notes() == old(self).notes() + sent_notes(
                        old(self).link().sent_frames(),
                    )
                    &&& final(self).events_spec() == after_sent(
                        old(self).events_spec(),
                        old(self).link().sent_frames().len(),
                    )
                },
                Some(d) => {
                    let k = old(self).link().tx_progress();
                    let e = ll_encode(old(self).link().crc_type(), d);
                    let c = tx_chunk(old(self).link().crc_type(), d, k, old(out)@.len());
                    let done = if k + c.len() == e.len() {
                        old(self).link().sent_frames().push(d)
                    } else {
                        old(self).link().sent_frames()
                    };
                    &&& r == c.len()
                    &&& final(out)@ == splice(old(out)@, 0, c)
                    &&& if k + c.len() == e.len() {
                        final(self).link().tx_frame() is None
                    } else {
                        final(self).link().tx_frame() == Some(d) && final(self).link().tx_progress()
                            == k + c.len()
                    }
                    &&& final(self).notes() == old(self).notes() + sent_notes(done)
                    &&& final(self).events_spec() == after_sent(old(self).events_spec(), done.len())
                },
            },
    {
        let written = self.ll.run_tx(out);
        self.deliver_sent_frames();
        written
    }

    /// Hands out the next byte of the frame being sent, if there is one (see
    /// [`HdlcLl::run_tx`] with room for one byte). A completely sent frame
    /// stays with the framing layer until it is reported.
    pub fn tx_byte(&mut self) -> (r: Option<u8>)
        requires
            old(self).inv(),
        ensures
            final(self).inv(),
            final(self).link().crc_type() == old(self).link().crc_type(),
            final(self).link().phys_mtu() == old(self).link().phys_mtu(),
            final(self).link().rx_model() == old(self).link().rx_model(),
            final(self).notes() == old(self).notes(),
            final(self).events_spec() == old(self).events_spec(),
            final(self).rx_len() == old(self).rx_len(),
            final(self).multithread() == old(self).multithread(),
            match old(self).link().tx_frame() {
                None => {
                    &&& r is None
                    &&& final(self).link().tx_frame() is None
                    &&& final(self).link().sent_frames() == old(self).link().sent_frames()
                },
                Some(d) => {
                    let k = old(self).link().tx_progress();
                    let e = ll_encode(old(self).link().crc_type(), d);
                    &&& k < e.len()
                    &&& r == Some(e[k as int])
                    &&& if k + 1 == e.len() {
                        &&& final(self).link().tx_frame() is None
                        &&& final(self).link().sent_frames() == old(self).link().sent_frames().push(d)
                    } else {
                        &&& final(self).link().tx_frame() == Some(d)
                        &&& final(self).link().tx_progress() == k + 1
                        &&& final(self).link().sent_frames() == old(self).link().sent_frames()
                    }
                },
            },
    {
        let mut buf: Vec<u8> = vec![0u8];
        let written = self.ll.run_tx(buf.as_mut_slice());
        if written == 0 {
            None
        } else {
            Some(buf[0])
        }
    }

    /// Gives up the frame being sent: the transmitter is reset and the
    /// framing layer accepts a frame again.
    pub fn cancel_tx(&mut self)
        requires
            old(self).inv(),
        ensures
            final(self).inv(),
            final(self).link().crc_type() == old(self).link().crc_type(),
            final(self).link().phys_mtu() == old(self).link().phys_mtu(),
            final(self).link().rx_model() == old(self).link().rx_model(),
            final(self).link().sent_frames() == old(self).link().sent_frames(),
            final(self).link().tx_frame() is None,
            final(self).notes() == old(self).notes(),
            final(self).events_spec() == old(self).events_spec() | TX_ACCEPT_BIT,
            final(self).rx_len() == old(self).rx_len(),
            final(self).multithread() == old(self).multithread(),
    {
        self.ll.reset(ResetFlags::TxOnly);
        self.events = self.events | TX_ACCEPT_BIT;
    }

    /// Queues `data` as the next frame to send.
    ///
    /// The sender first takes the "accepts a frame" bit: when it is not set,
    /// the result is `Busy` and nothing changes. Then the frame goes to the
    /// framing layer, whose error is returned (`Busy` when it is still
    /// sending; the bit stays taken), and the "data ready" bit is set. With
    /// `timeout_ms` 0 that is all. In multithread mode another thread sends
    /// the frame: the "sent" bit is taken; when it was not set the frame is
    /// given up, the framing layer accepts a frame again and the result is
    /// `Timeout`. Otherwise sending the frame is the caller's
    /// ([`Hdlc::tx_byte`], [`Hdlc::take_sent_frame`], [`Hdlc::cancel_tx`]).
    pub fn send(&mut self, data: &[u8], timeout_ms: u32) -> (r: TinyResult<()>)
        requires
            old(self).inv(),
        ensures
            final(self).inv(),
            final(self).link().crc_type() == old(self).link().crc_type(),
            final(self).link().phys_mtu() == old(self).link().phys_mtu(),
            final(self).link().rx_model() == old(self).link().rx_model(),
            final(self).link().sent_frames() == old(self).link().sent_frames(),
            final(self).notes() == old(self).notes(),
            final(self).rx_len() == old(self).rx_len(),
            final(self).multithread() == old(self).multithread(),
            ({
                let ev = old(self).events_spec();
                let e1 = ev & !TX_ACCEPT_BIT;
                let e2 = e1 | TX_DATA_READY_BIT;
                let e3 = e2 & !TX_DATA_SENT_BIT;
                let busy = data@.len() != 0 && old(self).link().tx_frame() is Some;
                if ev & TX_ACCEPT_BIT == 0 || busy {
                    &&& r == Err::<(), TinyError>(TinyError::Busy)
                    &&& final(self).events_spec() == e1
                    &&& final(self).link().tx_frame() == old(self).link().tx_frame()
                    &&& final(self).link().tx_progress() == old(self).link().tx_progress()
                } else if old(self).multithread() && timeout_ms != 0 && e2 & TX_DATA_SENT_BIT == 0 {
                    &&& r == Err::<(), TinyError>(TinyError::Timeout)
                    &&& final(self).events_spec() == e3 | TX_ACCEPT_BIT
                    &&& final(self).link().tx_frame() is None
                } else {
                    &&& r is Ok
                    &&& final(self).events_spec() == (if old(self).multithread() && timeout_ms != 0 {
                        e3
                    } else {
                        e2
                    })
                    &&& if data@.len() == 0 {
                        &&& final(self).link().tx_frame() == old(self).link().tx_frame()
                        &&& final(self).link().tx_progress() == old(self).link().tx_progress()
                    } else {
                        &&& final(self).link().tx_frame() == Some(data@)
                        &&& final(self).link().tx_progress() == 0
                    }
                }
            }),
    {
        let accept = self.events & TX_ACCEPT_BIT;
        self.events = self.events & !TX_ACCEPT_BIT;
        if accept == 0 {
            return Err(TinyError::Busy);
        }
        match self.ll.put_frame(data) {
            Ok(()) => {},
            Err(e) => {
                return Err(e);
            },
        }
        self.events = self.events | TX_DATA_READY_BIT;
        if timeout_ms == 0 {
            return Ok(());
        }
        if self.multithread_mode {
            let sent = self.events & TX_DATA_SENT_BIT;
            self.events = self.events & !TX_DATA_SENT_BIT;
            if sent == 0 {
                self.ll.reset(ResetFlags::TxOnly);
                self.events = self.events | TX_ACCEPT_BIT;
                return Err(TinyError::Timeout);
            }
        }
        Ok(())
    }
}

impl Hdlc {
    /// One check while the caller sends a frame itself, `elapsed_ms` after
    /// it started: a completely sent frame is reported and ends the send
    /// with `Ok` ([`Hdlc::take_sent_frame`]); otherwise, unless
    /// `timeout_ms` means waiting forever (`0xFFFF_FFFF`), reaching the
    /// timeout gives the frame up ([`Hdlc::cancel_tx`]) and ends the send
    /// with `Timeout`; otherwise the send goes on (`None`).
    pub fn send_poll(&mut self, elapsed_ms: u128, timeout_ms: u32) -> (r: Option<TinyResult<()>>)
        requires
            old(self).inv(),
        ensures
            final(self).inv(),
            final(self).link().crc_type() == old(self).link().crc_type(),
            final(self).link().phys_mtu() == old(self).link().phys_mtu(),
            final(self).link().rx_model() == old(self).link().rx_model(),
            final(self).rx_len() == old(self).rx_len(),
            final(self).multithread() == old(self).multithread(),
            old(self).link().sent_frames().len() > 0 ==> {
                &&& r == Some(Ok::<(), TinyError>(()))
                &&& final(self).link().sent_frames() == old(self).link().sent_frames().drop_first()
                &&& final(self).link().tx_frame() == old(self).link().tx_frame()
                &&& final(self).link().tx_progress() == old(self).link().tx_progress()
                &&& final(self).notes() == old(self).notes().push(
                    HdlcNote::FrameSent(old(self).link().sent_frames()[0]),
                )
                &&& final(self).events_spec() == after_sent(old(self).events_spec(), 1)
            },
            old(self).link().sent_frames().len() == 0 ==> {
                &&& final(self).link().sent_frames() == old(self).link().sent_frames()
                &&& final(self).notes() == old(self).notes()
                &&& if timeout_ms != 0xFFFF_FFFFu32 && elapsed_ms >= timeout_ms {
                    &&& r == Some(Err::<(), TinyError>(TinyError::Timeout))
                    &&& final(self).link().tx_frame() is None
                    &&& final(self).events_spec() == old(self).events_spec() | TX_ACCEPT_BIT
                } else {
                    &&& r is None
                    &&& final(self).link().tx_frame() == old(self).link().tx_frame()
                    &&& final(self).link().tx_progress() == old(self).link().tx_progress()
                    &&& final(self).events_spec() == old(self).events_spec()
                }
            },
    {
        if self.take_sent_frame() {
            return Some(Ok(()));
        }
        if timeout_ms != 0xFFFF_FFFFu32 && elapsed_ms >= timeout_ms as u128 {
            self.cancel_tx();
            return Some(Err(TinyError::Timeout));
        }
        None
    }
}

/// A frame handed out whole (into a buffer of at least its encoded length)
/// and fed to a receiver with the same frame check that waits for a frame
/// is consumed whole without error and reported as received, after every
/// earlier report.
pub proof fn lemma_frame_delivered(crc_type: HdlcCrcT, mtu: nat, s: RxModel, d: Seq<u8>, n: nat)
    requires
        s.phase == RxState::Start,
        d.len() > 0,
        d.len() + crc_field_size(crc_type) <= mtu,
        n >= ll_encode(crc_type, d).len(),
    ensures
        ({
            let c = tx_chunk(crc_type, d, 0, n);
            let (m, used, e) = rx_run(crc_type, mtu, s, c);
            &&& c == ll_encode(crc_type, d)
            &&& used == c.len()
            &&& e is None
            &&& m.phase == RxState::Start
            &&& read_notes(m.frames) == read_notes(s.frames).push(HdlcNote::FrameRead(d))
        }),
{
    let e = ll_encode(crc_type, d);
    assert(tx_chunk(crc_type, d, 0, n) =~= e);
    lemma_ll_roundtrip(crc_type, mtu, s, d);
    assert(read_notes(s.frames.push(d)) =~= read_notes(s.frames).push(HdlcNote::FrameRead(d)));
}

} // verus!
