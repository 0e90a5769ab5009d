//! HDLC framing layer.

/// Byte-stuffing and frame layout shared by the encoders and decoders.
pub mod framing;
/// One-shot HDLC encoder/decoder (non-streaming).
pub mod low_level;
/// Streaming HDLC framing state machine (byte-by-byte processing).
pub mod low_level_ll;
/// Container for the bytes of one frame.
pub mod frame;
/// Chaining of frame processing stages.
pub mod node;
/// Framing with event bits and notifications of received and sent frames.
pub mod high_level;
