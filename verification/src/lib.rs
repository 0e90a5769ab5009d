//! # tinyproto — HDLC protocol library
//!
//! Three protocol layers of increasing complexity:
//!
//! - **HDLC low-level** (`proto::hdlc`): raw HDLC framing with byte-stuffing
//!   and CRC verification, processed by streaming state machines.
//! - **Light** (`proto::light`): simple send/receive on top of HDLC framing,
//!   without acknowledgement or flow control.
//! - **Full-Duplex** (`proto::fd`): HDLC ABM/NRM with I/S/U frames,
//!   sliding-window flow control and connection management.
//!
//! All layers support CRC-8 (byte checksum), CRC-16 (FCS-16), CRC-32
//! (FCS-32) and a no-CRC mode.
pub mod proto;
