//! Tiny Light protocol: frames sent and read one at a time over HDLC
//! framing, without acknowledgement or flow control.
//!
//! A [`Light`] decides everything that sending and reading a frame
//! involves; moving the bytes to and from the channel and measuring the
//! time is the caller's: [`Light::send`] queues a frame,
//! [`Light::tx_byte`] hands out its bytes one by one and
//! [`Light::send_poll`] decides on each write's result and the time spent
//! (failure, timeout after [`Light::timeout_ms`]); [`Light::read`] takes
//! the bytes read one by one and returns the frame once complete, and
//! [`Light::read_poll`] decides on each read's result and the time spent.
use vstd::prelude::*;
use crate::proto::crc::{HdlcCrcT, crc_field_size};
use crate::proto::error::{TinyError, TinyResult};
use crate::proto::hdlc::low_level_ll::{
    HdlcLl, HdlcLlInit, ResetFlags, RxModel, RxState, rx_run, rx_step, ll_encode, lemma_ll_roundtrip,
};

verus! {

/// Receive buffer size of a [`Light`].
pub const LIGHT_RX_BUF_SIZE: usize = 256;

/// Configuration of a [`Light`].
pub struct LightConfig {
    /// Frame check kind.
    pub crc_type: HdlcCrcT,
    /// Timeout in milliseconds for sending or reading a frame.
    pub timeout_ms: u32,
}

impl Default for LightConfig {
    fn default() -> (r: Self)
        ensures
            r.crc_type == HdlcCrcT::HdlcCrc16,
            r.timeout_ms == 1000,
    {
        LightConfig { crc_type: HdlcCrcT::HdlcCrc16, timeout_ms: 1000 }
    }
}

/// Tiny Light protocol handle.
pub struct Light {
    ll: HdlcLl,
    timeout_ms: u32,
}

impl Light {
    /// The framing layer.
    pub closed spec fn link(&self) -> HdlcLl {
        self.ll
    }

    /// Timeout in milliseconds for sending or reading a frame.
    pub closed spec fn timeout(&self) -> u32 {
        self.timeout_ms
    }

    /// Internal consistency.
    pub closed spec fn wf(&self) -> bool {
        self.ll.wf()
    }

    /// Creates a handle: the framing layer receives frames of up to
    /// [`LIGHT_RX_BUF_SIZE`] bytes (frame check included).
    pub fn new(config: &LightConfig) -> (r: TinyResult<Self>)
        ensures
            r matches Ok(l) && {
                &&& l.wf()
                &&& l.link().crc_type() == config.crc_type
                &&& l.link().phys_mtu() == LIGHT_RX_BUF_SIZE
                &&& l.link().rx_model() == (RxModel {
                    phase: RxState::Start,
                    buf: Seq::empty(),
                    escape: false,
                    frames: Seq::empty(),
                })
                &&& l.link().tx_frame() is None
                &&& l.link().sent_frames() == Seq::<Seq<u8>>::empty()
                &&& l.timeout() == config.timeout_ms
            },
    {
        let ll = match HdlcLl::new(
            &HdlcLlInit { crc_type: config.crc_type, mtu: 0, rx_buf_size: LIGHT_RX_BUF_SIZE },
        ) {
            Ok(ll) => ll,
            Err(e) => {
                return Err(e);
            },
        };
        Ok(Light { ll, timeout_ms: config.timeout_ms })
    }

    /// Timeout in milliseconds for sending or reading a frame.
    pub fn timeout_ms(&self) -> (r: u32)
        ensures
            r == self.timeout(),
    {
        self.timeout_ms
    }

    /// Queues `data` as the frame to send and returns its length; the
    /// framing layer's error (`Busy` while it is still sending) otherwise.
    pub fn send(&mut self, data: &[u8]) -> (r: TinyResult<usize>)
        requires
            old(self).wf(),
        ensures
            final(self).wf(),
            final(self).timeout() == old(self).timeout(),
            final(self).link().crc_type() == old(self).link().crc_type(),
            final(self).link().phys_mtu() == old(self).link().phys_mtu(),
            final(self).link().rx_model() == old(self).link().rx_model(),
            final(self).link().sent_frames() == old(self).link().sent_frames(),
            data@.len() != 0 && old(self).link().tx_frame() is Some ==> {
                &&& r == Err::<usize, TinyError>(TinyError::Busy)
                &&& final(self).link().tx_frame() == old(self).link().tx_frame()
                &&& final(self).link().tx_progress() == old(self).link().tx_progress()
            },
            data@.len() == 0 ==> {
                &&& r == Ok::<usize, TinyError>(0)
                &&& final(self).link().tx_frame() == old(self).link().tx_frame()
                &&& final(self).link().tx_progress() == old(self).link().tx_progress()
            },
            data@.len() != 0 && old(self).link().tx_frame() is None ==> {
                &&& r == Ok::<usize, TinyError>(data@.len() as usize)
                &&& final(self).link().tx_frame() == Some(data@)
                &&& final(self).link().tx_progress() == 0
            },
    {
        match self.ll.put_frame(data) {
            Ok(()) => Ok(data.len()),
            Err(e) => Err(e),
        }
    }

    /// Hands out the next byte of the frame being sent. When there is none
    /// the frame was sent completely: its notice is dropped from the
    /// framing layer and the result is `None`.
    pub fn tx_byte(&mut self) -> (r: Option<u8>)
        requires
            old(self).wf(),
        ensures
            final(self).wf(),
            final(self).timeout() == old(self).timeout(),
            final(self).link().crc_type() == old(self).link().crc_type(),
            final(self).link().phys_mtu() == old(self).link().phys_mtu(),
            final(self).link().rx_model() == old(self).link().rx_model(),
            match old(self).link().tx_frame() {
                None => {
                    &&& r is None
                    &&& final(self).link().tx_frame() is None
                    &&& final(self).link().sent_frames() == if old(self).link().sent_frames().len()
                        > 0 {
                        old(self).link().sent_frames().drop_first()
                    } else {
                        old(self).link().sent_frames()
                    }
                },
                Some(d) => {
                    let k = old(self).link().tx_progress();
                    let e = ll_encode(old(self).link().crc_type(), d);
                    &&& k < e.len()
                    &&& r == Some(e[k as int])
                    &&& if k + 1 == e.len() {
                        &&& final(self).link().tx_frame() is None
                        &&& final(self).link().sent_frames() == old(self).link().sent_frames().push(d)
                    } else {
                        &&& final(self).link().tx_frame() == Some(d)
                        &&& final(self).link().tx_progress() == k + 1
                        &&& final(self).link().sent_frames() == old(self).link().sent_frames()
                    }
                },
            },
    {
        let mut buf: Vec<u8> = vec![0u8];
        let written = self.ll.run_tx(buf.as_mut_slice());
        if written == 0 {
            let _ = self.ll.get_tx_sent_frame();
            None
        } else {
            Some(buf[0])
        }
    }

    /// Gives up the frame being sent: the transmitter is reset.
    pub fn cancel_send(&mut self)
        requires
            old(self).wf(),
        ensures
            final(self).wf(),
            final(self).timeout() == old(self).timeout(),
            final(self).link().crc_type() == old(self).link().crc_type(),
            final(self).link().phys_mtu() == old(self).link().phys_mtu(),
            final(self).link().rx_model() == old(self).link().rx_model(),
            final(self).link().sent_frames() == old(self).link().sent_frames(),
            final(self).link().tx_frame() is None,
    {
        self.ll.reset(ResetFlags::TxOnly);
    }

    /// One step of reading: feeds the byte read from the channel, if any,
    /// to the framing layer ([`rx_run`]); an error other than `WrongCrc`
    /// (a damaged frame is skipped) is returned at once. Otherwise the
    /// oldest frame received and not yet returned is returned, if there is
    /// one.
    pub fn read(&mut self, input: Option<u8>) -> (r: TinyResult<Option<Vec<u8>>>)
        requires
            old(self).wf(),
        ensures
            final(self).wf(),
            final(self).timeout() == old(self).timeout(),
            final(self).link().crc_type() == old(self).link().crc_type(),
            final(self).link().phys_mtu() == old(self).link().phys_mtu(),
            final(self).link().tx_frame() == old(self).link().tx_frame(),
            final(self).link().tx_progress() == old(self).link().tx_progress(),
            final(self).link().sent_frames() == old(self).link().sent_frames(),
            ({
                let fed = match input {
                    Some(b) => rx_run(
                        old(self).link().crc_type(),
                        old(self).link().phys_mtu(),
                        old(self).link().rx_model(),
                        seq![b],
                    ),
                    None => (old(self).link().rx_model(), 0nat, None::<TinyError>),
                };
                let m = fed.0;
                match fed.2 {
                    Some(e) if e != TinyError::WrongCrc => {
                        &&& r == Err::<Option<Vec<u8>>, TinyError>(e)
                        &&& final(self).link().rx_model() == m
                    },
                    _ => if m.frames.len() > 0 {
                        &&& r matches Ok(Some(f)) && f@ == m.frames[0]
                        &&& final(self).link().rx_model() == (RxModel {
                            frames: m.frames.drop_first(),
                            ..m
                        })
                    } else {
                        &&& r matches Ok(None)
                        &&& final(self).link().rx_model() == m
                    },
                }
            }),
    {
        match input {
            Some(b) => {
                let buf: Vec<u8> = vec![b];
                assert(buf@ =~= seq![b]);
                let (_, err) = self.ll.run_rx(buf.as_slice());
                match err {
                    Some(e) => {
                        if e != TinyError::WrongCrc {
                            return Err(e);
                        }
                    },
                    None => {},
                }
            },
            None => {},
        }
        match self.ll.get_rx_frame() {
            Some(frame) => Ok(Some(frame)),
            None => Ok(None),
        }
    }

    /// Drops a partly received frame: the receiver is reset (frames
    /// received completely stay).
    pub fn cancel_read(&mut self)
        requires
            old(self).wf(),
        ensures
            final(self).wf(),
            final(self).timeout() == old(self).timeout(),
            final(self).link().crc_type() == old(self).link().crc_type(),
            final(self).link().phys_mtu() == old(self).link().phys_mtu(),
            final(self).link().tx_frame() == old(self).link().tx_frame(),
            final(self).link().tx_progress() == old(self).link().tx_progress(),
            final(self).link().sent_frames() == old(self).link().sent_frames(),
            final(self).link().rx_model() == (RxModel {
                phase: RxState::Start,
                buf: Seq::empty(),
                escape: false,
                frames: old(self).link().rx_model().frames,
            }),
    {
        self.ll.reset(ResetFlags::RxOnly);
    }

    /// One check while sending a frame, after the channel took a write
    /// with result `sent`, `elapsed_ms` after the send started: a negative
    /// result fails the send (`Failed`); otherwise reaching the timeout
    /// gives the frame up ([`Light::cancel_send`]) and the send fails with
    /// `Timeout`; otherwise the send goes on (`None`).
    pub fn send_poll(&mut self, sent: i32, elapsed_ms: u128) -> (r: Option<TinyError>)
        requires
            old(self).wf(),
        ensures
            final(self).wf(),
            final(self).timeout() == old(self).timeout(),
            final(self).link().crc_type() == old(self).link().crc_type(),
            final(self).link().phys_mtu() == old(self).link().phys_mtu(),
            final(self).link().rx_model() == old(self).link().rx_model(),
            final(self).link().sent_frames() == old(self).link().sent_frames(),
            sent < 0 ==> r == Some(TinyError::Failed) && *final(self) == *old(self),
            sent >= 0 && elapsed_ms >= old(self).timeout() ==> r == Some(TinyError::Timeout)
                && final(self).link().tx_frame() is None,
            sent >= 0 && elapsed_ms < old(self).timeout() ==> r is None && *final(self) == *old(self),
    {
        if sent < 0 {
            return Some(TinyError::Failed);
        }
        if elapsed_ms >= self.timeout_ms as u128 {
            self.cancel_send();
            return Some(TinyError::Timeout);
        }
        None
    }

    /// One step of reading a frame, after the channel was read with result
    /// `bytes_read` (the byte `byte` when it is positive), `elapsed_ms`
    /// after the read started: a negative result fails the read (`Failed`);
    /// otherwise the byte read, if any, goes to [`Light::read`], whose error
    /// or frame ends the read; otherwise reaching the timeout drops a partly
    /// received frame ([`Light::cancel_read`]) and the read fails with
    /// `Timeout`; otherwise the read goes on (`None`).
    pub fn read_poll(&mut self, bytes_read: i32, byte: u8, elapsed_ms: u128) -> (r: Option<
        TinyResult<Vec<u8>>,
    >)
        requires
            old(self).wf(),
        ensures
            final(self).wf(),
            final(self).timeout() == old(self).timeout(),
            final(self).link().crc_type() == old(self).link().crc_type(),
            final(self).link().phys_mtu() == old(self).link().phys_mtu(),
            final(self).link().tx_frame() == old(self).link().tx_frame(),
            final(self).link().tx_progress() == old(self).link().tx_progress(),
            final(self).link().sent_frames() == old(self).link().sent_frames(),
            bytes_read < 0 ==> r == Some(Err::<Vec<u8>, TinyError>(TinyError::Failed)) && *final(self)
                == *old(self),
            bytes_read >= 0 ==> ({
                let (m, e) = fed_input(
                    old(self).link().crc_type(),
                    old(self).link().phys_mtu(),
                    old(self).link().rx_model(),
                    if bytes_read > 0 {
                        Some(byte)
                    } else {
                        None
                    },
                );
                if e is Some && e->0 != TinyError::WrongCrc {
                    &&& r == Some(Err::<Vec<u8>, TinyError>(e->0))
                    &&& final(self).link().rx_model() == m
                } else if m.frames.len() > 0 {
                    &&& r matches Some(Ok(f)) && f@ == m.frames[0]
                    &&& final(self).link().rx_model() == (RxModel {
                        frames: m.frames.drop_first(),
                        ..m
                    })
                } else if elapsed_ms >= old(self).timeout() {
                    &&& r == Some(Err::<Vec<u8>, TinyError>(TinyError::Timeout))
                    &&& final(self).link().rx_model() == (RxModel {
                        phase: RxState::Start,
                        buf: Seq::empty(),
                        escape: false,
                        frames: m.frames,
                    })
                } else {
                    &&& r is None
                    &&& final(self).link().rx_model() == m
                }
            }),
    {
        if bytes_read < 0 {
            return Some(Err(TinyError::Failed));
        }
        let input = if bytes_read > 0 {
            Some(byte)
        } else {
            None
        };
        match self.read(input) {
            Err(e) => Some(Err(e)),
            Ok(Some(frame)) => Some(Ok(frame)),
            Ok(None) => {
                if elapsed_ms >= self.timeout_ms as u128 {
                    self.cancel_read();
                    Some(Err(TinyError::Timeout))
                } else {
                    None
                }
            },
        }
    }
}

/// The receiver's state and error after the byte read, if any, is fed to
/// it ([`rx_run`] on that one byte).
pub open spec fn fed_input(crc_type: HdlcCrcT, mtu: nat, s: RxModel, input: Option<u8>) -> (
    RxModel,
    Option<TinyError>,
) {
    match input {
        Some(b) => {
            let (m, _c, e) = rx_run(crc_type, mtu, s, seq![b]);
            (m, e)
        },
        None => (s, None),
    }
}

/// The receiver's state after `data` is fed to it one byte at a time, as
/// successive [`Light::read`] steps do.
pub open spec fn read_bytes(crc_type: HdlcCrcT, mtu: nat, s: RxModel, data: Seq<u8>) -> RxModel
    decreases data.len(),
{
    if data.len() == 0 {
        s
    } else {
        read_bytes(crc_type, mtu, rx_run(crc_type, mtu, s, seq![data[0]]).0, data.drop_first())
    }
}

/// Feeding bytes one at a time ends where feeding them at once does, when
/// that meets no error.
pub proof fn lemma_read_bytes_run(crc_type: HdlcCrcT, mtu: nat, s: RxModel, data: Seq<u8>)
    requires
        rx_run(crc_type, mtu, s, data).2 is None,
    ensures
        read_bytes(crc_type, mtu, s, data) == rx_run(crc_type, mtu, s, data).0,
    decreases data.len(),
{
    if data.len() > 0 {
        let one = seq![data[0]];
        assert(one.drop_first() =~= Seq::<u8>::empty());
        assert(one[0] == data[0]);
        let (s1, e) = rx_step(crc_type, mtu, s, data[0]);
        assert(rx_run(crc_type, mtu, s1, Seq::<u8>::empty()).0 == s1);
        assert(rx_run(crc_type, mtu, s, one).0 == s1);
        lemma_read_bytes_run(crc_type, mtu, s1, data.drop_first());
    }
}

/// The bytes a sender hands out for a non-empty frame (see
/// [`Light::tx_byte`]), read one at a time by a reader with the same frame
/// check that waits for a frame, leave that frame as the reader's newest
/// received one, without error.
pub proof fn lemma_light_roundtrip(crc_type: HdlcCrcT, s: RxModel, d: Seq<u8>)
    requires
        s.phase == RxState::Start,
        d.len() > 0,
        d.len() + crc_field_size(crc_type) <= LIGHT_RX_BUF_SIZE,
    ensures
        rx_run(crc_type, LIGHT_RX_BUF_SIZE as nat, s, ll_encode(crc_type, d)).2 is None,
        read_bytes(crc_type, LIGHT_RX_BUF_SIZE as nat, s, ll_encode(crc_type, d)) == (RxModel {
            phase: RxState::Start,
            buf: Seq::empty(),
            escape: false,
            frames: s.frames.push(d),
        }),
{
    lemma_ll_roundtrip(crc_type, LIGHT_RX_BUF_SIZE as nat, s, d);
    lemma_read_bytes_run(crc_type, LIGHT_RX_BUF_SIZE as nat, s, ll_encode(crc_type, d));
}

} // verus!
