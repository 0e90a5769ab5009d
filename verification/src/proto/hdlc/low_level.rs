//! One-shot HDLC encoder/decoder working on complete buffers.
use vstd::prelude::*;
use crate::proto::crc::{
    HdlcCrcT, crc_value, crc_field_size, le_bytes, le_value, lemma_le_roundtrip,
    get_crc_field_size, crc_compute,
};
use crate::proto::hdlc::framing::{
    FLAG_SEQUENCE, ESCAPE_CHAR, ESCAPE_BIT, is_special, stuff_byte, stuff, frame_bytes,
    lemma_stuff_append, lemma_stuff_take_succ, lemma_stuff_len, lemma_frame_bytes_shape,
};

verus! {

/// Result codes of the one-shot encoder/decoder.
#[derive(PartialEq, Eq, Debug, Structural)]
pub enum ResultT {
    /// Operation completed successfully.
    Success,
    /// Input data is invalid or incomplete.
    InvalidData,
    /// Generic error.
    Error,
    /// Encoder/decoder is busy.
    Busy,
    /// Payload exceeds the configured MTU.
    DataTooLarge,
    /// CRC verification failed.
    WrongCrc,
}

/// The frame check value that the one-shot encoder uses: the 8, 16 and
/// 32-bit checks are computed, every other kind sends zero bytes.
pub open spec fn encoder_crc(crc_type: HdlcCrcT, data: Seq<u8>) -> u32 {
    match crc_type {
        HdlcCrcT::HdlcCrc8 => crc_value(crc_type, data),
        HdlcCrcT::HdlcCrc16 => crc_value(crc_type, data),
        HdlcCrcT::HdlcCrc32 => crc_value(crc_type, data),
        _ => 0,
    }
}

/// The frame body (payload and check field) that the one-shot encoder sends.
pub open spec fn encoder_body(crc_type: HdlcCrcT, data: Seq<u8>) -> Seq<u8> {
    data + le_bytes(encoder_crc(crc_type, data), crc_field_size(crc_type))
}

/// The output of [`HdlcEncoder::encode`].
pub open spec fn encode_spec(crc_type: HdlcCrcT, data: Seq<u8>) -> Seq<u8> {
    frame_bytes(encoder_body(crc_type, data))
}

/// State of the decoder's scan over its input.
pub struct DecodeScan {
    /// Bytes decoded so far (payload and check field).
    pub out: Seq<u8>,
    /// The previous byte was the escape character.
    pub escape: bool,
    /// The closing flag has been seen.
    pub stopped: bool,
    /// Input bytes consumed.
    pub consumed: nat,
}

/// The scan state before any input.
pub open spec fn decode_init() -> DecodeScan {
    DecodeScan { out: Seq::empty(), escape: false, stopped: false, consumed: 0 }
}

/// One input byte of the decoder's scan.
pub open spec fn decode_step(st: DecodeScan, b: u8) -> DecodeScan {
    if st.stopped {
        st
    } else if b == FLAG_SEQUENCE {
        if st.out.len() != 0 {
            DecodeScan { stopped: true, consumed: st.consumed + 1, ..st }
        } else {
            DecodeScan { consumed: st.consumed + 1, ..st }
        }
    } else if b == ESCAPE_CHAR {
        DecodeScan { escape: true, consumed: st.consumed + 1, ..st }
    } else if st.escape {
        DecodeScan {
            out: st.out.push(b ^ ESCAPE_BIT),
            escape: false,
            consumed: st.consumed + 1,
            ..st
        }
    } else {
        DecodeScan { out: st.out.push(b), consumed: st.consumed + 1, ..st }
    }
}

/// The scan state after the bytes of `s`.
pub open spec fn decode_run(st: DecodeScan, s: Seq<u8>) -> DecodeScan
    decreases s.len(),
{
    if s.len() == 0 {
        st
    } else {
        decode_step(decode_run(st, s.drop_last()), s.last())
    }
}

/// The result of [`HdlcEncoder::decode`]: bytes consumed, result code and
/// the content left in the output buffer.
pub open spec fn decode_spec(crc_type: HdlcCrcT, data: Seq<u8>) -> (nat, ResultT, Seq<u8>) {
    let st = decode_run(decode_init(), data);
    let r = st.out;
    let n = crc_field_size(crc_type);
    if r.len() < n {
        (st.consumed, ResultT::InvalidData, r)
    } else if encoder_crc(crc_type, r.take(r.len() - n)) != le_value(r.skip(r.len() - n)) {
        (st.consumed, ResultT::WrongCrc, r)
    } else {
        (st.consumed, ResultT::Success, r.take(r.len() - n))
    }
}

proof fn lemma_decode_run_append(st: DecodeScan, a: Seq<u8>, b: Seq<u8>)
    ensures
        decode_run(st, a + b) == decode_run(decode_run(st, a), b),
    decreases b.len(),
{
    if b.len() == 0 {
        assert(a + b =~= a);
    } else {
        lemma_decode_run_append(st, a, b.drop_last());
        assert((a + b).drop_last() =~= a + b.drop_last());
        assert((a + b).last() == b.last());
    }
}

proof fn lemma_decode_run_stopped(st: DecodeScan, s: Seq<u8>)
    requires
        st.stopped,
    ensures
        decode_run(st, s) == st,
    decreases s.len(),
{
    if s.len() > 0 {
        lemma_decode_run_stopped(st, s.drop_last());
    }
}

proof fn lemma_decode_run_consumed(st: DecodeScan, s: Seq<u8>)
    ensures
        decode_run(st, s).consumed <= st.consumed + s.len(),
    decreases s.len(),
{
    if s.len() > 0 {
        lemma_decode_run_consumed(st, s.drop_last());
    }
}

proof fn lemma_decode_stuffed(st: DecodeScan, s: Seq<u8>)
    requires
        !st.stopped,
        !st.escape,
    ensures
        decode_run(st, stuff(s)) == (DecodeScan {
            out: st.out + s,
            escape: false,
            stopped: false,
            consumed: st.consumed + stuff(s).len(),
        }),
    decreases s.len(),
{
    if s.len() == 0 {
        assert(st.out + s =~= st.out);
    } else {
        let p = s.drop_last();
        let x = s.last();
        lemma_decode_stuffed(st, p);
        lemma_decode_run_append(st, stuff(p), stuff_byte(x));
        let mid = decode_run(st, stuff(p));
        let t = stuff_byte(x);
        let e = Seq::<u8>::empty();
        assert(decode_run(mid, e) == mid);
        if is_special(x) {
            let y = x ^ 0x20u8;
            assert(y != 0x7Eu8 && y != 0x7Du8 && (y ^ 0x20u8) == x) by (bit_vector)
                requires
                    x == 0x7Eu8 || x == 0x7Du8,
                    y == x ^ 0x20u8,
            ;
            let t1 = seq![ESCAPE_CHAR];
            assert(t.drop_last() =~= t1);
            assert(t1.drop_last() =~= e);
            let m1 = decode_step(mid, ESCAPE_CHAR);
            assert(decode_run(mid, t1) == m1);
            assert(decode_run(mid, t) == decode_step(m1, y));
        } else {
            assert(t.drop_last() =~= e);
            assert(decode_run(mid, t) == decode_step(mid, x));
        }
        assert(mid.out.push(x) =~= st.out + s);
    }
}

/// Decoding what the encoder produced gives back the payload, consuming the
/// whole encoded frame, for every kind of frame check.
pub proof fn lemma_encode_decode_roundtrip(crc_type: HdlcCrcT, data: Seq<u8>)
    ensures
        decode_spec(crc_type, encode_spec(crc_type, data)) == (
        encode_spec(crc_type, data).len(),
        ResultT::Success,
        data,
        ),
{
    let body = encoder_body(crc_type, data);
    let n = crc_field_size(crc_type);
    let cb = le_bytes(encoder_crc(crc_type, data), n);
    let st0 = decode_init();
    let open = seq![FLAG_SEQUENCE];
    let st1 = decode_run(st0, open);
    assert(open.drop_last() =~= Seq::<u8>::empty());
    assert(decode_run(st0, Seq::<u8>::empty()) == st0);
    assert(st1 == DecodeScan { consumed: 1, ..st0 });
    lemma_decode_stuffed(st1, body);
    lemma_decode_run_append(st0, open, stuff(body));
    let enc = encode_spec(crc_type, data);
    assert(enc.drop_last() =~= open + stuff(body));
    assert(st1.out + body =~= body);
    let st = decode_run(st0, enc);
    assert(st.out == body);
    assert(st.consumed == enc.len());
    assert(body.take(body.len() - n) =~= data);
    assert(body.skip(body.len() - n) =~= cb);
    lemma_le_roundtrip(encoder_crc(crc_type, data), n);
}

/// Decoding stops at the closing flag of an encoded frame: whatever bytes
/// follow it, decoding gives back the payload and reports exactly the
/// frame's length as consumed, so the caller can go on with the rest. (A
/// frame with an empty body is two flags, which the decoder skips as an
/// empty frame.)
pub proof fn lemma_decode_stops_after_frame(crc_type: HdlcCrcT, data: Seq<u8>, rest: Seq<u8>)
    requires
        data.len() + crc_field_size(crc_type) > 0,
    ensures
        decode_spec(crc_type, encode_spec(crc_type, data) + rest) == (
        encode_spec(crc_type, data).len(),
        ResultT::Success,
        data,
        ),
{
    let body = encoder_body(crc_type, data);
    let enc = encode_spec(crc_type, data);
    let st0 = decode_init();
    let open = seq![FLAG_SEQUENCE];
    let pre = open + stuff(body);
    assert(open.drop_last() =~= Seq::<u8>::empty());
    assert(decode_run(st0, Seq::<u8>::empty()) == st0);
    let st1 = decode_run(st0, open);
    assert(st1 == DecodeScan { consumed: 1, ..st0 });
    lemma_decode_stuffed(st1, body);
    lemma_decode_run_append(st0, open, stuff(body));
    assert(st1.out + body =~= body);
    assert(enc.drop_last() =~= pre);
    let st = decode_run(st0, enc);
    assert(st.stopped);
    lemma_decode_run_append(st0, enc, rest);
    lemma_decode_run_stopped(st, rest);
    assert(decode_run(st0, enc + rest) == st);
    lemma_encode_decode_roundtrip(crc_type, data);
}

/// An encoded frame starts and ends with the flag `0x7E`, holds no other
/// flag, and is at most twice the payload and frame check plus two bytes
/// long.
pub proof fn lemma_encoded_shape(crc_type: HdlcCrcT, data: Seq<u8>)
    ensures
        ({
            let e = encode_spec(crc_type, data);
            let n = data.len() + crc_field_size(crc_type);
            &&& e[0] == FLAG_SEQUENCE
            &&& e[e.len() - 1] == FLAG_SEQUENCE
            &&& forall|k: int| 0 < k < e.len() - 1 ==> e[k] != FLAG_SEQUENCE
            &&& n + 2 <= e.len() <= 2 * n + 2
        }),
{
    lemma_frame_bytes_shape(encoder_body(crc_type, data));
}

/// One-shot HDLC encoder/decoder.
///
/// Encodes a payload into a complete HDLC frame (byte-stuffing and frame
/// check) and decodes such a frame back into its payload.
pub struct HdlcEncoder {
    crc_type: HdlcCrcT,
}

impl View for HdlcEncoder {
    type V = HdlcCrcT;

    closed spec fn view(&self) -> HdlcCrcT {
        self.crc_type
    }
}

impl HdlcEncoder {
    /// Creates an encoder/decoder with the given frame check kind.
    /// The MTU is not used.
    pub fn new(crc_type: HdlcCrcT, _mtu: isize) -> (r: HdlcEncoder)
        ensures
            r@ == crc_type,
    {
        HdlcEncoder { crc_type }
    }

    /// Encodes `data` into a complete HDLC frame stored in `result`
    /// (its previous content is dropped). Always succeeds.
    pub fn encode(&self, data: &[u8], result: &mut Vec<u8>) -> (r: ResultT)
        requires
            2 * data@.len() + 10 <= usize::MAX,
        ensures
            r == ResultT::Success,
            final(result)@ == encode_spec(self@, data@),
    {
        let crc: u32 = match self.crc_type {
            HdlcCrcT::HdlcCrc8 | HdlcCrcT::HdlcCrc16 | HdlcCrcT::HdlcCrc32 => crc_compute(
                self.crc_type,
                data,
                data.len(),
            ),
            _ => 0,
        };
        assert(data@.take(data@.len() as int) =~= data@);
        assert(crc == encoder_crc(self@, data@));
        result.truncate(0);
        result.push(FLAG_SEQUENCE);
        let mut i: usize = 0;
        assert(data@.take(0) =~= Seq::<u8>::empty());
        assert(result@ =~= seq![FLAG_SEQUENCE] + stuff(data@.take(0)));
        while i < data.len()
            invariant
                i <= data@.len(),
                2 * data@.len() + 10 <= usize::MAX,
                result@ == seq![FLAG_SEQUENCE] + stuff(data@.take(i as int)),
            decreases data@.len() - i,
        {
            let byte = data[i];
            proof {
                lemma_stuff_take_succ(data@, i as int);
                lemma_stuff_len(data@.take(i as int));
            }
            if byte == FLAG_SEQUENCE || byte == ESCAPE_CHAR {
                result.push(ESCAPE_CHAR);
                result.push(byte ^ ESCAPE_BIT);
            } else {
                result.push(byte);
            }
            i = i + 1;
            assert(result@ =~= seq![FLAG_SEQUENCE] + stuff(data@.take(i as int)));
        }
        let crc_size = get_crc_field_size(self.crc_type);
        let ghost cb = le_bytes(crc, crc_size as nat);
        let ghost head = seq![FLAG_SEQUENCE] + stuff(data@);
        assert(data@.take(data@.len() as int) =~= data@);
        let mut j: usize = 0;
        assert(cb.take(0) =~= Seq::<u8>::empty());
        assert(result@ =~= head + stuff(cb.take(0)));
        proof {
            lemma_stuff_len(data@);
        }
        while j < crc_size
            invariant
                j <= crc_size <= 4,
                cb == le_bytes(crc, crc_size as nat),
                head.len() <= 2 * data@.len() + 1,
                2 * data@.len() + 10 <= usize::MAX,
                result@ == head + stuff(cb.take(j as int)),
            decreases crc_size - j,
        {
            let byte = (crc >> ((j * 8) as u32)) as u8;
            proof {
                assert(cb[j as int] == byte);
                lemma_stuff_take_succ(cb, j as int);
                lemma_stuff_len(cb.take(j as int));
            }
            if byte == FLAG_SEQUENCE || byte == ESCAPE_CHAR {
                result.push(ESCAPE_CHAR);
                result.push(byte ^ ESCAPE_BIT);
            } else {
                result.push(byte);
            }
            j = j + 1;
            assert(result@ =~= head + stuff(cb.take(j as int)));
        }
        result.push(FLAG_SEQUENCE);
        proof {
            assert(cb.take(crc_size as int) =~= cb);
            lemma_stuff_append(data@, cb);
            assert(result@ =~= encode_spec(self@, data@));
        }
        ResultT::Success
    }

    /// Decodes an HDLC frame from `data`.
    ///
    /// Returns the number of bytes consumed and the result code. On success
    /// `result` holds the payload without the frame check; on failure it
    /// holds everything decoded (frame check included).
    pub fn decode(&self, data: &[u8], result: &mut Vec<u8>) -> (r: (usize, ResultT))
        ensures
            ({
                let (c, code, out) = decode_spec(self@, data@);
                &&& r.0 == c
                &&& r.1 == code
                &&& final(result)@ == out
            }),
    {
        let mut consumed: usize = 0;
        let mut escape: bool = false;
        let crc_size = get_crc_field_size(self.crc_type);
        result.truncate(0);
        let mut i: usize = 0;
        assert(data@.take(0) =~= Seq::<u8>::empty());
        assert(result@ =~= Seq::<u8>::empty());
        assert(data@.take(data@.len() as int) =~= data@);
        while i < data.len()
            invariant_except_break
                data@.take(data@.len() as int) == data@,
                i <= data@.len(),
                decode_run(decode_init(), data@.take(i as int)) == (DecodeScan {
                    out: result@,
                    escape,
                    stopped: false,
                    consumed: consumed as nat,
                }),
                consumed == i,
            ensures
                decode_run(decode_init(), data@).out == result@,
                decode_run(decode_init(), data@).consumed == consumed,
            decreases data@.len() - i,
        {
            let byte = data[i];
            assert(data@.take(i + 1).drop_last() =~= data@.take(i as int));
            assert(data@.take(i + 1).last() == byte);
            consumed = consumed + 1;
            i = i + 1;
            if byte == FLAG_SEQUENCE {
                if result.len() != 0 {
                    proof {
                        let st = decode_run(decode_init(), data@.take(i as int));
                        assert(st.stopped);
                        lemma_decode_run_stopped(st, data@.skip(i as int));
                        lemma_decode_run_append(
                            decode_init(),
                            data@.take(i as int),
                            data@.skip(i as int),
                        );
                        assert(data@.take(i as int) + data@.skip(i as int) =~= data@);
                    }
                    break;
                }
                continue;
            }
            if byte == ESCAPE_CHAR {
                escape = true;
                continue;
            }
            if escape {
                escape = false;
                result.push(byte ^ ESCAPE_BIT);
            } else {
                result.push(byte);
            }
        }
        let ghost st = decode_run(decode_init(), data@);
        assert(result@ == st.out);
        assert(consumed == st.consumed);
        if result.len() < crc_size {
            return (consumed, ResultT::InvalidData);
        }
        let payload_len = result.len() - crc_size;
        let crc: u32 = match self.crc_type {
            HdlcCrcT::HdlcCrc8 | HdlcCrcT::HdlcCrc16 | HdlcCrcT::HdlcCrc32 => crc_compute(
                self.crc_type,
                result.as_slice(),
                payload_len,
            ),
            _ => 0,
        };
        let ghost tail = result@.skip(payload_len as int);
        let mut crc_data: u32 = 0;
        let mut j: usize = 0;
        assert(tail.take(0) =~= Seq::<u8>::empty());
        while j < crc_size
            invariant
                j <= crc_size <= 4,
                payload_len + crc_size == result.len(),
                tail == result@.skip(payload_len as int),
                crc_data == le_value(tail.take(j as int)),
            decreases crc_size - j,
        {
            assert(tail.take(j + 1).drop_last() =~= tail.take(j as int));
            crc_data = crc_data | ((result[payload_len + j] as u32) << ((j * 8) as u32));
            j = j + 1;
        }
        assert(tail.take(crc_size as int) =~= tail);
        if crc != crc_data {
            return (consumed, ResultT::WrongCrc);
        }
        result.truncate(payload_len);
        (consumed, ResultT::Success)
    }
}

} // verus!
