//! HDLC frame layout: a frame is the flag sequence, the byte-stuffed body
//! (payload followed by the frame check, least significant byte first) and
//! the flag sequence again.
use vstd::prelude::*;

verus! {

/// Start or end of frame.
pub const FLAG_SEQUENCE: u8 = 0x7E;

/// Byte to fill the gap between frames.
pub const FILL_BYTE: u8 = 0xFF;

/// Escape character.
pub const ESCAPE_CHAR: u8 = 0x7D;

/// Bit flipped in an escaped byte.
pub const ESCAPE_BIT: u8 = 0x20;

/// Whether a byte must be escaped inside a frame.
pub open spec fn is_special(b: u8) -> bool {
    b == FLAG_SEQUENCE || b == ESCAPE_CHAR
}

/// The on-wire form of one body byte.
pub open spec fn stuff_byte(b: u8) -> Seq<u8> {
    if is_special(b) {
        seq![ESCAPE_CHAR, b ^ ESCAPE_BIT]
    } else {
        seq![b]
    }
}

/// The on-wire form of a frame body.
pub open spec fn stuff(s: Seq<u8>) -> Seq<u8>
    decreases s.len(),
{
    if s.len() == 0 {
        Seq::empty()
    } else {
        stuff(s.drop_last()) + stuff_byte(s.last())
    }
}

/// A complete frame on the wire around a body.
pub open spec fn frame_bytes(body: Seq<u8>) -> Seq<u8> {
    seq![FLAG_SEQUENCE] + stuff(body) + seq![FLAG_SEQUENCE]
}

/// Stuffing a concatenation stuffs each part.
pub proof fn lemma_stuff_append(a: Seq<u8>, b: Seq<u8>)
    ensures
        stuff(a + b) == stuff(a) + stuff(b),
    decreases b.len(),
{
    if b.len() == 0 {
        assert(a + b =~= a);
        assert(stuff(a) + stuff(b) =~= stuff(a));
    } else {
        lemma_stuff_append(a, b.drop_last());
        assert((a + b).drop_last() =~= a + b.drop_last());
        assert((a + b).last() == b.last());
        assert(stuff(a + b) =~= stuff(a) + stuff(b));
    }
}

/// Stuffing a prefix one byte longer appends that byte's stuffing.
pub proof fn lemma_stuff_take_succ(s: Seq<u8>, i: int)
    requires
        0 <= i < s.len(),
    ensures
        stuff(s.take(i + 1)) == stuff(s.take(i)) + stuff_byte(s[i]),
{
    assert(s.take(i + 1).drop_last() =~= s.take(i));
}

/// The stuffed form never holds a flag sequence.
pub proof fn lemma_stuff_no_flag(s: Seq<u8>)
    ensures
        forall|k: int| 0 <= k < stuff(s).len() ==> stuff(s)[k] != FLAG_SEQUENCE,
    decreases s.len(),
{
    if s.len() > 0 {
        let p = s.drop_last();
        lemma_stuff_no_flag(p);
        let x = s.last();
        assert(is_special(x) ==> (x ^ 0x20u8) != 0x7Eu8) by (bit_vector);
        let a = stuff(p);
        let t = stuff_byte(x);
        assert forall|k: int| 0 <= k < stuff(s).len() implies stuff(s)[k] != FLAG_SEQUENCE by {
            if k < a.len() {
                assert(stuff(s)[k] == a[k]);
            } else {
                assert(stuff(s)[k] == t[k - a.len()]);
            }
        }
    }
}

/// The stuffed form is at least as long as the body.
pub proof fn lemma_stuff_len(s: Seq<u8>)
    ensures
        s.len() <= stuff(s).len() <= 2 * s.len(),
    decreases s.len(),
{
    if s.len() > 0 {
        lemma_stuff_len(s.drop_last());
    }
}

/// A framed body starts and ends with the flag, holds no other flag, and
/// is at most twice the body plus the two flags long.
pub proof fn lemma_frame_bytes_shape(body: Seq<u8>)
    ensures
        ({
            let f = frame_bytes(body);
            &&& f[0] == FLAG_SEQUENCE
            &&& f[f.len() - 1] == FLAG_SEQUENCE
            &&& forall|k: int| 0 < k < f.len() - 1 ==> f[k] != FLAG_SEQUENCE
            &&& body.len() + 2 <= f.len() <= 2 * body.len() + 2
        }),
{
    lemma_stuff_no_flag(body);
    lemma_stuff_len(body);
    let f = frame_bytes(body);
    let st = stuff(body);
    assert forall|k: int| 0 < k < f.len() - 1 implies f[k] != FLAG_SEQUENCE by {
        assert(f[k] == st[k - 1]);
    }
}

} // verus!
