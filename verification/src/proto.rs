//! Protocol implementations.

/// Error types and result aliases used throughout the library.
pub mod error;
/// Frame check sequences (CRC-8, CRC-16, CRC-32).
pub mod crc;
/// HDLC framing layer: low-level encoding/decoding and higher-level wrappers.
pub mod hdlc;
/// Light protocol: simple send/receive over HDLC framing.
pub mod light;
/// Full-Duplex protocol: connection-oriented HDLC with a sliding window.
pub mod fd;
