//! Error codes of the library, with their C-style numeric codes (`TINY_ERR_*`).
use vstd::prelude::*;

/// Flags for API functions (`TINY_FLAG_*`).
pub mod flags;

verus! {

/// Error codes of the library.
#[derive(Debug, Clone, Copy, PartialEq, Eq, Structural)]
pub enum TinyError {
    /// Generic failure (code -1).
    Failed,
    /// Timeout happened (code -2).
    Timeout,
    /// Data too large to fit the buffer (code -3).
    DataTooLarge,
    /// Invalid data passed to an API function (code -4).
    InvalidData,
    /// Operation cannot be performed right now (code -5).
    Busy,
    /// Received data not part of a frame (code -6).
    OutOfSync,
    /// No data available, retry later (code -7).
    Again,
    /// Invalid CRC field (code -8).
    WrongCrc,
    /// Out of memory (code -9).
    OutOfMemory,
    /// Unknown remote peer (code -10).
    UnknownPeer,
    /// I/O error (code -11).
    Io,
}

/// Result type of the library's operations.
pub type TinyResult<T> = Result<T, TinyError>;

/// The C-style code of an error.
pub open spec fn error_code(e: TinyError) -> i32 {
    match e {
        TinyError::Failed => -1i32,
        TinyError::Timeout => -2i32,
        TinyError::DataTooLarge => -3i32,
        TinyError::InvalidData => -4i32,
        TinyError::Busy => -5i32,
        TinyError::OutOfSync => -6i32,
        TinyError::Again => -7i32,
        TinyError::WrongCrc => -8i32,
        TinyError::OutOfMemory => -9i32,
        TinyError::UnknownPeer => -10i32,
        TinyError::Io => -11i32,
    }
}

/// The error with C-style code `code`, if there is one.
pub open spec fn error_from_code(code: i32) -> Option<TinyError> {
    if code == -1 {
        Some(TinyError::Failed)
    } else if code == -2 {
        Some(TinyError::Timeout)
    } else if code == -3 {
        Some(TinyError::DataTooLarge)
    } else if code == -4 {
        Some(TinyError::InvalidData)
    } else if code == -5 {
        Some(TinyError::Busy)
    } else if code == -6 {
        Some(TinyError::OutOfSync)
    } else if code == -7 {
        Some(TinyError::Again)
    } else if code == -8 {
        Some(TinyError::WrongCrc)
    } else if code == -9 {
        Some(TinyError::OutOfMemory)
    } else if code == -10 {
        Some(TinyError::UnknownPeer)
    } else if code == -11 {
        Some(TinyError::Io)
    } else {
        None
    }
}

/// The message that describes an error.
pub open spec fn error_message(e: TinyError) -> Seq<char> {
    match e {
        TinyError::Failed => "operation failed"@,
        TinyError::Timeout => "timeout"@,
        TinyError::DataTooLarge => "data too large"@,
        TinyError::InvalidData => "invalid data"@,
        TinyError::Busy => "busy"@,
        TinyError::OutOfSync => "out of sync"@,
        TinyError::Again => "try again"@,
        TinyError::WrongCrc => "wrong CRC"@,
        TinyError::OutOfMemory => "out of memory"@,
        TinyError::UnknownPeer => "unknown peer"@,
        TinyError::Io => "I/O error"@,
    }
}

impl TinyError {
    /// Converts a C-style error code to an error; `None` for any other value.
    pub fn from_code(code: i32) -> (r: Option<TinyError>)
        ensures
            r == error_from_code(code),
    {
        match code {
            -1 => Some(TinyError::Failed),
            -2 => Some(TinyError::Timeout),
            -3 => Some(TinyError::DataTooLarge),
            -4 => Some(TinyError::InvalidData),
            -5 => Some(TinyError::Busy),
            -6 => Some(TinyError::OutOfSync),
            -7 => Some(TinyError::Again),
            -8 => Some(TinyError::WrongCrc),
            -9 => Some(TinyError::OutOfMemory),
            -10 => Some(TinyError::UnknownPeer),
            -11 => Some(TinyError::Io),
            _ => None,
        }
    }

    /// Converts to the C-style error code.
    pub fn to_code(self) -> (r: i32)
        ensures
            r == error_code(self),
    {
        match self {
            TinyError::Failed => -1,
            TinyError::Timeout => -2,
            TinyError::DataTooLarge => -3,
            TinyError::InvalidData => -4,
            TinyError::Busy => -5,
            TinyError::OutOfSync => -6,
            TinyError::Again => -7,
            TinyError::WrongCrc => -8,
            TinyError::OutOfMemory => -9,
            TinyError::UnknownPeer => -10,
            TinyError::Io => -11,
        }
    }

    /// The human-readable description of the error.
    pub fn message(self) -> (r: &'static str)
        ensures
            r@ == error_message(self),
    {
        match self {
            TinyError::Failed => "operation failed",
            TinyError::Timeout => "timeout",
            TinyError::DataTooLarge => "data too large",
            TinyError::InvalidData => "invalid data",
            TinyError::Busy => "busy",
            TinyError::OutOfSync => "out of sync",
            TinyError::Again => "try again",
            TinyError::WrongCrc => "wrong CRC",
            TinyError::OutOfMemory => "out of memory",
            TinyError::UnknownPeer => "unknown peer",
            TinyError::Io => "I/O error",
        }
    }
}

/// Converting an error to its code and back gives the error again.
pub proof fn lemma_error_code_roundtrip(e: TinyError)
    ensures
        error_from_code(error_code(e)) == Some(e),
{
}

/// Every code that names an error is that error's code.
pub proof fn lemma_error_code_exact(code: i32)
    ensures
        error_from_code(code) matches Some(e) ==> error_code(e) == code,
        error_from_code(code) is None ==> !(-11 <= code <= -1),
{
}

} // verus!
