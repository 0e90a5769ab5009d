//! Frame type definitions of the Full-Duplex protocol.
use vstd::prelude::*;
use crate::proto::hdlc::low_level_ll::copy_bytes;

verus! {

/// HDLC frame header (address and control fields).
#[derive(Debug, Clone, Copy, Default, PartialEq, Eq, Structural)]
pub struct FrameHeader {
    /// HDLC address field (identifies the secondary station).
    pub address: u8,
    /// HDLC control field (frame type, sequence numbers, P/F bit).
    pub control: u8,
}

/// The two bytes of header `h` on the link: address, control.
pub open spec fn header_bytes(h: FrameHeader) -> Seq<u8> {
    seq![h.address, h.control]
}

/// The header at the start of `data`, when it holds two bytes.
pub open spec fn parse_header(data: Seq<u8>) -> Option<FrameHeader> {
    if data.len() < 2 {
        None
    } else {
        Some(FrameHeader { address: data[0], control: data[1] })
    }
}

/// Reading back the bytes of a header, or of a whole frame, gives the
/// header.
pub proof fn lemma_header_roundtrip(h: FrameHeader, payload: Seq<u8>)
    ensures
        parse_header(header_bytes(h)) == Some(h),
        parse_header(header_bytes(h) + payload) == Some(h),
{
}

impl FrameHeader {
    /// The header as the two bytes `[address, control]`.
    pub fn to_bytes(&self) -> (r: [u8; 2])
        ensures
            r@ == header_bytes(*self),
    {
        let r = [self.address, self.control];
        assert(r@ =~= seq![self.address, self.control]);
        r
    }

    /// The header in the first two bytes of `data`; `None` when `data` is
    /// shorter than two bytes.
    pub fn from_bytes(data: &[u8]) -> (r: Option<Self>)
        ensures
            r == parse_header(data@),
    {
        if data.len() < 2 {
            return None;
        }
        Some(FrameHeader { address: data[0], control: data[1] })
    }
}

/// Type tag of a slot of a frame queue.
#[derive(Debug, Clone, Copy, PartialEq, Eq, Structural)]
pub enum QueuedFrameType {
    /// Slot is available (tag 0x01).
    Free,
    /// Unnumbered frame (tag 0x02).
    UFrame,
    /// Supervisory frame (tag 0x04).
    SFrame,
    /// Information frame (tag 0x08).
    IFrame,
}

/// Content of a queued frame.
pub struct FrameEntry {
    pub frame_type: QueuedFrameType,
    pub header: FrameHeader,
    pub payload: Seq<u8>,
}

/// Metadata and payload of a queued HDLC frame.
#[derive(Debug, Clone)]
pub struct FrameInfo {
    /// The type tag (I, S, U, or Free).
    pub frame_type: QueuedFrameType,
    /// Address and control bytes.
    pub header: FrameHeader,
    /// User payload (without header).
    pub payload: Vec<u8>,
}

impl View for FrameInfo {
    type V = FrameEntry;

    open spec fn view(&self) -> FrameEntry {
        FrameEntry { frame_type: self.frame_type, header: self.header, payload: self.payload@ }
    }
}

/// The bytes of a frame on the link: address, control, payload.
pub open spec fn entry_bytes(e: FrameEntry) -> Seq<u8> {
    header_bytes(e.header) + e.payload
}

/// A frame's bytes are its two header bytes followed by its payload: two
/// bytes more than the payload, and the header reads back from them.
pub proof fn lemma_entry_bytes(e: FrameEntry)
    ensures
        entry_bytes(e).len() == e.payload.len() + 2,
        entry_bytes(e)[0] == e.header.address,
        entry_bytes(e)[1] == e.header.control,
        entry_bytes(e).skip(2) == e.payload,
        parse_header(entry_bytes(e)) == Some(e.header),
{
    assert(entry_bytes(e).skip(2) =~= e.payload);
}

impl FrameInfo {
    /// A frame record holding a copy of `payload`.
    pub fn new(frame_type: QueuedFrameType, header: FrameHeader, payload: &[u8]) -> (r: Self)
        ensures
            r@ == (FrameEntry { frame_type, header, payload: payload@ }),
    {
        FrameInfo { frame_type, header, payload: copy_bytes(payload) }
    }

    /// Total frame length including the header.
    pub fn total_len(&self) -> (r: usize)
        requires
            self.payload@.len() + 2 <= usize::MAX,
        ensures
            r == self.payload@.len() + 2,
    {
        2 + self.payload.len()
    }

    /// The frame's bytes: header followed by payload.
    pub fn to_bytes(&self) -> (r: Vec<u8>)
        requires
            self.payload@.len() + 2 <= usize::MAX,
        ensures
            r@ == entry_bytes(self@),
    {
        let mut data: Vec<u8> = Vec::with_capacity(self.total_len());
        data.push(self.header.address);
        data.push(self.header.control);
        let mut i: usize = 0;
        while i < self.payload.len()
            invariant
                i <= self.payload@.len(),
                data@ == seq![self.header.address, self.header.control] + self.payload@.take(
                    i as int,
                ),
            decreases self.payload@.len() - i,
        {
            data.push(self.payload[i]);
            i = i + 1;
            assert(data@ =~= seq![self.header.address, self.header.control] + self.payload@.take(
                i as int,
            ));
        }
        assert(self.payload@.take(self.payload@.len() as int) =~= self.payload@);
        data
    }
}

/// I-frame record with the address of its peer.
#[derive(Debug, Clone)]
pub struct IFrameInfo {
    /// The underlying frame data.
    pub frame: FrameInfo,
    /// HDLC address of the peer this frame belongs to.
    pub peer_address: u8,
}

} // verus!
