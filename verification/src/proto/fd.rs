//! Full-Duplex protocol: HDLC ABM (Asynchronous Balanced Mode) and NRM
//! (Normal Response Mode) with I-frames, S-frames, U-frames, a sliding
//! window and connection management.

/// Protocol constants and definitions.
pub mod defines;
/// Frame headers and queued frame records.
pub mod frames;
/// N(S)/N(R) sequence tracking of I-frames.
pub mod i_queue_control;
/// Slot queues of frames waiting for transmission.
pub mod frame_queue;
/// Monotonic clock readings used for timeouts.
pub mod clock;
/// Peers: primary/secondary logic, addresses, per-peer state.
pub mod peers;
/// The protocol state machine.
pub mod protocol;
/// Properties of the protocol rules.
pub mod properties;
