//! Container for the bytes of one HDLC frame.
use vstd::prelude::*;

verus! {

/// The bytes of one HDLC frame, in order.
pub struct HdlcFrame {
    data: Vec<u8>,
}

impl View for HdlcFrame {
    type V = Seq<u8>;

    closed spec fn view(&self) -> Seq<u8> {
        self.data@
    }
}

impl HdlcFrame {
    /// Creates an empty frame.
    pub fn new() -> (r: HdlcFrame)
        ensures
            r@ == Seq::<u8>::empty(),
    {
        HdlcFrame { data: Vec::new() }
    }

    /// Appends `byte` at the end of the frame.
    pub fn push(&mut self, byte: u8)
        ensures
            final(self)@ == old(self)@.push(byte),
    {
        self.data.push(byte);
    }

    /// The byte at position `index`.
    pub fn index(&self, index: usize) -> (r: u8)
        requires
            index < self@.len(),
        ensures
            r == self@[index as int],
    {
        self.data[index]
    }

    /// Number of bytes in the frame.
    pub fn len(&self) -> (r: usize)
        ensures
            r == self@.len(),
    {
        self.data.len()
    }
}

} // verus!
