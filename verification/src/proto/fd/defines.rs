//! Full-Duplex protocol constants and definitions.
use vstd::prelude::*;

verus! {

/// Primary station address.
pub const FD_PRIMARY_ADDR: u8 = 0;

/// Protocol modes.
#[derive(Debug, Clone, Copy, PartialEq, Eq, Structural)]
pub enum FdMode {
    /// Asynchronous Balanced Mode: peer-to-peer (code 0x00).
    Abm,
    /// Normal Response Mode: primary/secondary polling (code 0x01).
    Nrm,
}

/// Connection states.
#[derive(Debug, Clone, Copy, PartialEq, Eq, Structural)]
pub enum FdState {
    Idle,
    Disconnected,
    Connecting,
    Connected,
    Disconnecting,
}

/// Frame types.
#[derive(Debug, Clone, Copy, PartialEq, Eq, Structural)]
pub enum FrameType {
    /// Information frame (code 0x00).
    I,
    /// Supervisory frame (code 0x01).
    S,
    /// Unnumbered frame (code 0x02).
    U,
}

/// S-frame subtypes.
#[derive(Debug, Clone, Copy, PartialEq, Eq, Structural)]
pub enum SFrameSubtype {
    Rr,
    Rnr,
    Rej,
    Srej,
}

/// U-frame subtypes.
#[derive(Debug, Clone, Copy, PartialEq, Eq, Structural)]
pub enum UFrameSubtype {
    Ua,
    Dm,
    Frmr,
    Rset,
    Sabm,
    Snrm,
    Disc,
    Ui,
}

/// Frame direction.
#[derive(Debug, Clone, Copy, PartialEq, Eq, Structural)]
pub enum FrameDirection {
    In,
    Out,
}

impl FdMode {
    /// The mode's code.
    pub fn code(self) -> (r: u8)
        ensures
            r == (if self == FdMode::Abm { 0u8 } else { 1u8 }),
    {
        match self {
            FdMode::Abm => 0x00,
            FdMode::Nrm => 0x01,
        }
    }
}

impl FdState {
    /// The state's code, in declaration order from 0.
    pub fn code(self) -> (r: u8)
        ensures
            r == match self {
                FdState::Idle => 0u8,
                FdState::Disconnected => 1u8,
                FdState::Connecting => 2u8,
                FdState::Connected => 3u8,
                FdState::Disconnecting => 4u8,
            },
    {
        match self {
            FdState::Idle => 0,
            FdState::Disconnected => 1,
            FdState::Connecting => 2,
            FdState::Connected => 3,
            FdState::Disconnecting => 4,
        }
    }
}

impl FrameType {
    /// The frame type's code.
    pub fn code(self) -> (r: u8)
        ensures
            r == match self {
                FrameType::I => 0u8,
                FrameType::S => 1u8,
                FrameType::U => 2u8,
            },
    {
        match self {
            FrameType::I => 0x00,
            FrameType::S => 0x01,
            FrameType::U => 0x02,
        }
    }
}

impl SFrameSubtype {
    /// The subtype bits of the control field.
    pub fn code(self) -> (r: u8)
        ensures
            r == match self {
                SFrameSubtype::Rr => HDLC_S_FRAME_TYPE_RR,
                SFrameSubtype::Rnr => HDLC_S_FRAME_TYPE_RNR,
                SFrameSubtype::Rej => HDLC_S_FRAME_TYPE_REJ,
                SFrameSubtype::Srej => HDLC_S_FRAME_TYPE_SREJ,
            },
    {
        match self {
            SFrameSubtype::Rr => HDLC_S_FRAME_TYPE_RR,
            SFrameSubtype::Rnr => HDLC_S_FRAME_TYPE_RNR,
            SFrameSubtype::Rej => HDLC_S_FRAME_TYPE_REJ,
            SFrameSubtype::Srej => HDLC_S_FRAME_TYPE_SREJ,
        }
    }
}

impl UFrameSubtype {
    /// The subtype bits of the control field.
    pub fn code(self) -> (r: u8)
        ensures
            r == match self {
                UFrameSubtype::Ua => HDLC_U_FRAME_TYPE_UA,
                UFrameSubtype::Dm => HDLC_U_FRAME_TYPE_DM,
                UFrameSubtype::Frmr => HDLC_U_FRAME_TYPE_FRMR,
                UFrameSubtype::Rset => HDLC_U_FRAME_TYPE_RSET,
                UFrameSubtype::Sabm => HDLC_U_FRAME_TYPE_SABM,
                UFrameSubtype::Snrm => HDLC_U_FRAME_TYPE_SNRM,
                UFrameSubtype::Disc => HDLC_U_FRAME_TYPE_DISC,
                UFrameSubtype::Ui => HDLC_U_FRAME_TYPE_UI,
            },
    {
        match self {
            UFrameSubtype::Ua => HDLC_U_FRAME_TYPE_UA,
            UFrameSubtype::Dm => HDLC_U_FRAME_TYPE_DM,
            UFrameSubtype::Frmr => HDLC_U_FRAME_TYPE_FRMR,
            UFrameSubtype::Rset => HDLC_U_FRAME_TYPE_RSET,
            UFrameSubtype::Sabm => HDLC_U_FRAME_TYPE_SABM,
            UFrameSubtype::Snrm => HDLC_U_FRAME_TYPE_SNRM,
            UFrameSubtype::Disc => HDLC_U_FRAME_TYPE_DISC,
            UFrameSubtype::Ui => HDLC_U_FRAME_TYPE_UI,
        }
    }
}

impl FrameDirection {
    /// The direction's code.
    pub fn code(self) -> (r: u8)
        ensures
            r == (if self == FrameDirection::In { 0u8 } else { 1u8 }),
    {
        match self {
            FrameDirection::In => 0x00,
            FrameDirection::Out => 0x01,
        }
    }
}

// HDLC control field bit masks
pub const HDLC_I_FRAME_BITS: u8 = 0x00;

pub const HDLC_I_FRAME_MASK: u8 = 0x01;

pub const HDLC_S_FRAME_BITS: u8 = 0x01;

pub const HDLC_S_FRAME_MASK: u8 = 0x03;

pub const HDLC_S_FRAME_TYPE_RR: u8 = 0x00;

pub const HDLC_S_FRAME_TYPE_RNR: u8 = 0x04;

pub const HDLC_S_FRAME_TYPE_REJ: u8 = 0x08;

pub const HDLC_S_FRAME_TYPE_SREJ: u8 = 0x0C;

pub const HDLC_S_FRAME_TYPE_MASK: u8 = 0x0C;

pub const HDLC_U_FRAME_BITS: u8 = 0x03;

pub const HDLC_U_FRAME_MASK: u8 = 0x03;

pub const HDLC_U_FRAME_TYPE_UA: u8 = 0x60;

pub const HDLC_U_FRAME_TYPE_DM: u8 = 0x0C;

pub const HDLC_U_FRAME_TYPE_FRMR: u8 = 0x84;

pub const HDLC_U_FRAME_TYPE_RSET: u8 = 0x8C;

pub const HDLC_U_FRAME_TYPE_SABM: u8 = 0x2C;

pub const HDLC_U_FRAME_TYPE_SNRM: u8 = 0x80;

pub const HDLC_U_FRAME_TYPE_DISC: u8 = 0x40;

pub const HDLC_U_FRAME_TYPE_UI: u8 = 0x00;

pub const HDLC_U_FRAME_TYPE_MASK: u8 = 0xEC;

pub const HDLC_P_BIT: u8 = 0x10;

pub const HDLC_F_BIT: u8 = 0x10;

/// Command/Response bit.
pub const HDLC_CR_BIT: u8 = 0x02;

/// Extension bit: when set, the address is one byte.
pub const HDLC_E_BIT: u8 = 0x01;

/// Address field of the primary station (without the E bit).
pub const HDLC_PRIMARY_ADDR: u8 = 0x00;

/// Peer index meaning "no such peer".
pub const HDLC_INVALID_PEER_INDEX: u8 = 0xFF;

/// Mask of the 3-bit sequence numbers.
pub const SEQ_BITS_MASK: u8 = 0x07;

// Event bits
pub const FD_EVENT_TX_SENDING: u8 = 0x01;

pub const FD_EVENT_TX_DATA_AVAILABLE: u8 = 0x02;

pub const FD_EVENT_QUEUE_HAS_FREE_SLOTS: u8 = 0x04;

pub const FD_EVENT_CAN_ACCEPT_I_FRAMES: u8 = 0x08;

pub const FD_EVENT_HAS_MARKER: u8 = 0x10;

/// Maximum number of U-frames in the service queue.
pub const U_QUEUE_MAX_SIZE: usize = 4;

} // verus!
