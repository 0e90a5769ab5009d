use vstd::prelude::*;

verus! {

/// Non-blocking operation.
pub const NO_WAIT: u32 = 0;

/// Read the entire frame even if it does not fit the buffer.
pub const READ_ALL: u32 = 1;

/// The caller wants to start transmitting a new frame.
pub const LOCK_SEND: u32 = 2;

/// Blocking operation (wait forever).
pub const WAIT_FOREVER: u32 = 0x80;

} // verus!
