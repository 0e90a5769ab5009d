//! Frame check sequences for HDLC frames.
//!
//! * CRC-8: 8-bit sum of all bytes (simple checksum), initial value 0.
//! * CRC-16: CCITT FCS-16 (RFC 1662): reflected polynomial 0x8408,
//!   initial value 0xFFFF, result complemented.
//! * CRC-32: CCITT FCS-32: reflected polynomial 0xEDB88320,
//!   initial value 0xFFFFFFFF, result complemented.
use vstd::prelude::*;

verus! {

/// Kind of frame check sequence appended to every HDLC frame.
#[derive(Debug, Clone, Copy, PartialEq, Eq, Structural)]
pub enum HdlcCrcT {
    /// Default frame check: the 32-bit FCS.
    HdlcCrcDefault,
    /// 8-bit checksum.
    HdlcCrc8,
    /// CCITT FCS-16.
    HdlcCrc16,
    /// CCITT FCS-32.
    HdlcCrc32,
    /// No frame check at all.
    HdlcCrcOff,
}

/// Number of bytes that the frame check of `crc_type` occupies in a frame.
pub open spec fn crc_field_size(crc_type: HdlcCrcT) -> nat {
    match crc_type {
        HdlcCrcT::HdlcCrcDefault => 4,
        HdlcCrcT::HdlcCrc8 => 1,
        HdlcCrcT::HdlcCrc16 => 2,
        HdlcCrcT::HdlcCrc32 => 4,
        HdlcCrcT::HdlcCrcOff => 0,
    }
}

/// Returns the number of bytes that the frame check of `crc_type` occupies.
pub fn get_crc_field_size(crc_type: HdlcCrcT) -> (r: usize)
    ensures
        r == crc_field_size(crc_type),
        r <= 4,
{
    match crc_type {
        HdlcCrcT::HdlcCrcDefault => 4,
        HdlcCrcT::HdlcCrc8 => 1,
        HdlcCrcT::HdlcCrc16 => 2,
        HdlcCrcT::HdlcCrc32 => 4,
        HdlcCrcT::HdlcCrcOff => 0,
    }
}

// ---------------------------------------------------------------------------
// CRC-8 (byte sum)

/// One step of the 8-bit checksum.
pub open spec fn sum8_byte(sum: u8, b: u8) -> u8 {
    ((sum + b) % 256) as u8
}

/// The 8-bit checksum state after feeding `s` into state `sum`.
pub open spec fn sum8_fold(sum: u8, s: Seq<u8>) -> u8
    decreases s.len(),
{
    if s.len() == 0 {
        sum
    } else {
        sum8_byte(sum8_fold(sum, s.drop_last()), s.last())
    }
}

/// The CRC-8 value of a byte sequence.
pub open spec fn crc8_of(s: Seq<u8>) -> u8 {
    sum8_fold(0, s)
}

// ---------------------------------------------------------------------------
// CRC-16 (FCS-16)

/// One bit step of the reflected FCS-16 shift register.
pub open spec fn fcs16_bit(crc: u16) -> u16 {
    if crc & 1 == 1 {
        (crc >> 1u16) ^ 0x8408u16
    } else {
        crc >> 1u16
    }
}

/// The FCS-16 register after one byte.
pub open spec fn fcs16_byte(crc: u16, b: u8) -> u16 {
    let c = crc ^ (b as u16);
    fcs16_bit(fcs16_bit(fcs16_bit(fcs16_bit(fcs16_bit(fcs16_bit(fcs16_bit(fcs16_bit(c))))))))
}

/// The FCS-16 register after feeding `s` into register `crc`.
pub open spec fn fcs16_fold(crc: u16, s: Seq<u8>) -> u16
    decreases s.len(),
{
    if s.len() == 0 {
        crc
    } else {
        fcs16_byte(fcs16_fold(crc, s.drop_last()), s.last())
    }
}

/// The CRC-16 value of a byte sequence: the complemented FCS-16 register.
pub open spec fn crc16_of(s: Seq<u8>) -> u16 {
    !fcs16_fold(0xFFFFu16, s)
}

// ---------------------------------------------------------------------------
// CRC-32 (FCS-32)

/// One bit step of the reflected FCS-32 shift register.
pub open spec fn fcs32_bit(crc: u32) -> u32 {
    if crc & 1 == 1 {
        (crc >> 1u32) ^ 0xEDB88320u32
    } else {
        crc >> 1u32
    }
}

/// The FCS-32 register after one byte.
pub open spec fn fcs32_byte(crc: u32, b: u8) -> u32 {
    let c = crc ^ (b as u32);
    fcs32_bit(fcs32_bit(fcs32_bit(fcs32_bit(fcs32_bit(fcs32_bit(fcs32_bit(fcs32_bit(c))))))))
}

/// The FCS-32 register after feeding `s` into register `crc`.
pub open spec fn fcs32_fold(crc: u32, s: Seq<u8>) -> u32
    decreases s.len(),
{
    if s.len() == 0 {
        crc
    } else {
        fcs32_byte(fcs32_fold(crc, s.drop_last()), s.last())
    }
}

/// The CRC-32 value of a byte sequence: the complemented FCS-32 register.
pub open spec fn crc32_of(s: Seq<u8>) -> u32 {
    !fcs32_fold(0xFFFF_FFFFu32, s)
}

/// The frame check value of `s` for the given kind, widened to 32 bits
/// (0 when no frame check is used).
pub open spec fn crc_value(crc_type: HdlcCrcT, s: Seq<u8>) -> u32 {
    match crc_type {
        HdlcCrcT::HdlcCrc8 => crc8_of(s) as u32,
        HdlcCrcT::HdlcCrc16 => crc16_of(s) as u32,
        HdlcCrcT::HdlcCrc32 => crc32_of(s),
        HdlcCrcT::HdlcCrcDefault => crc32_of(s),
        HdlcCrcT::HdlcCrcOff => 0,
    }
}

/// The `n` low-order bytes of `v`, least significant first: the order in
/// which the frame check is transmitted.
pub open spec fn le_bytes(v: u32, n: nat) -> Seq<u8> {
    Seq::new(n, |i: int| (v >> ((8 * i) as u32)) as u8)
}

/// The value of a little-endian byte sequence of at most 4 bytes.
pub open spec fn le_value(s: Seq<u8>) -> u32
    decreases s.len(),
{
    if s.len() == 0 {
        0
    } else {
        le_value(s.drop_last()) | ((s.last() as u32) << ((8 * (s.len() - 1)) as u32))
    }
}

/// Whether `v` fits into the `n` bytes of a frame check field.
pub open spec fn fits_field(v: u32, n: nat) -> bool {
    n == 4 || (n == 2 && v < 0x10000) || (n == 1 && v < 0x100) || (n == 0 && v == 0)
}

/// A frame check value fits into the field of its kind.
pub proof fn lemma_crc_value_fits(crc_type: HdlcCrcT, s: Seq<u8>)
    ensures
        fits_field(crc_value(crc_type, s), crc_field_size(crc_type)),
{
}

/// Reading back the transmitted bytes of a value that fits gives the value.
pub proof fn lemma_le_roundtrip(v: u32, n: nat)
    requires
        fits_field(v, n),
    ensures
        le_value(le_bytes(v, n)) == v,
{
    reveal_with_fuel(le_value, 5);
    let s = le_bytes(v, n);
    let b0 = (v >> 0u32) as u8;
    let b1 = (v >> 8u32) as u8;
    let b2 = (v >> 16u32) as u8;
    let b3 = (v >> 24u32) as u8;
    if n == 0 {
    } else if n == 1 {
        assert(s.drop_last() =~= Seq::<u8>::empty());
        assert(le_value(s) == 0u32 | ((b0 as u32) << 0u32));
        assert(0u32 | (((v >> 0u32) as u8 as u32) << 0u32) == v) by (bit_vector)
            requires
                v < 0x100,
        ;
    } else if n == 2 {
        let s1 = s.drop_last();
        assert(s1.drop_last() =~= Seq::<u8>::empty());
        assert(le_value(s1) == 0u32 | ((b0 as u32) << 0u32));
        assert(le_value(s) == le_value(s1) | ((b1 as u32) << 8u32));
        assert((0u32 | (((v >> 0u32) as u8 as u32) << 0u32)) | (((v >> 8u32) as u8 as u32) << 8u32)
            == v) by (bit_vector)
            requires
                v < 0x10000,
        ;
    } else {
        let s3 = s.drop_last();
        let s2 = s3.drop_last();
        let s1 = s2.drop_last();
        assert(s1.drop_last() =~= Seq::<u8>::empty());
        assert(le_value(s1) == 0u32 | ((b0 as u32) << 0u32));
        assert(le_value(s2) == le_value(s1) | ((b1 as u32) << 8u32));
        assert(le_value(s3) == le_value(s2) | ((b2 as u32) << 16u32));
        assert(le_value(s) == le_value(s3) | ((b3 as u32) << 24u32));
        assert((((0u32 | (((v >> 0u32) as u8 as u32) << 0u32)) | (((v >> 8u32) as u8 as u32)
            << 8u32)) | (((v >> 16u32) as u8 as u32) << 16u32)) | (((v >> 24u32) as u8 as u32)
            << 24u32) == v) by (bit_vector);
    }
}

/// Feeding data in two pieces leaves every running frame check where
/// feeding it at once does.
pub proof fn lemma_fold_append(a: Seq<u8>, b: Seq<u8>, s8: u8, c16: u16, c32: u32)
    ensures
        sum8_fold(sum8_fold(s8, a), b) == sum8_fold(s8, a + b),
        fcs16_fold(fcs16_fold(c16, a), b) == fcs16_fold(c16, a + b),
        fcs32_fold(fcs32_fold(c32, a), b) == fcs32_fold(c32, a + b),
    decreases b.len(),
{
    if b.len() == 0 {
        assert(a + b =~= a);
    } else {
        lemma_fold_append(a, b.drop_last(), s8, c16, c32);
        assert((a + b).drop_last() =~= a + b.drop_last());
        assert((a + b).last() == b.last());
    }
}

proof fn lemma_take_succ<T>(s: Seq<T>, i: int)
    requires
        0 <= i < s.len(),
    ensures
        s.take(i + 1).drop_last() =~= s.take(i),
        s.take(i + 1).last() == s[i],
{
}

/// Running 8-bit checksum.
pub struct Crc8 {
    sum: u8,
}

impl View for Crc8 {
    type V = u8;

    closed spec fn view(&self) -> u8 {
        self.sum
    }
}

impl Crc8 {
    /// A fresh checksum over no bytes.
    pub fn new() -> (r: Crc8)
        ensures
            r@ == 0,
    {
        Crc8 { sum: 0 }
    }

    /// Feeds the first `len` bytes of `data`.
    pub fn sum_bytes(&mut self, data: &[u8], len: usize)
        requires
            len <= data@.len(),
        ensures
            final(self)@ == sum8_fold(old(self)@, data@.take(len as int)),
    {
        let ghost start = self.sum;
        let mut i: usize = 0;
        assert(data@.take(0) =~= Seq::<u8>::empty());
        while i < len
            invariant
                i <= len <= data@.len(),
                self.sum == sum8_fold(start, data@.take(i as int)),
            decreases len - i,
        {
            proof {
                lemma_take_succ(data@, i as int);
            }
            self.sum = self.sum.wrapping_add(data[i]);
            i = i + 1;
        }
    }

    /// The checksum of the bytes fed so far.
    pub fn get(&self) -> (r: u8)
        ensures
            r == self@,
    {
        self.sum
    }
}

/// Running FCS-16.
pub struct Crc16 {
    crc: u16,
}

impl View for Crc16 {
    type V = u16;

    closed spec fn view(&self) -> u16 {
        self.crc
    }
}

fn fcs16_update_bit(c: u16) -> (r: u16)
    ensures
        r == fcs16_bit(c),
{
    if c & 1 == 1 {
        (c >> 1u16) ^ 0x8408u16
    } else {
        c >> 1u16
    }
}

fn fcs16_update(crc: u16, b: u8) -> (r: u16)
    ensures
        r == fcs16_byte(crc, b),
{
    let c = crc ^ (b as u16);
    let c = fcs16_update_bit(c);
    let c = fcs16_update_bit(c);
    let c = fcs16_update_bit(c);
    let c = fcs16_update_bit(c);
    let c = fcs16_update_bit(c);
    let c = fcs16_update_bit(c);
    let c = fcs16_update_bit(c);
    fcs16_update_bit(c)
}


impl Crc16 {
    /// A fresh FCS-16 register.
    pub fn new() -> (r: Crc16)
        ensures
            r@ == 0xFFFFu16,
    {
        Crc16 { crc: 0xFFFF }
    }

    /// Feeds the first `len` bytes of `data`.
    pub fn sum_bytes(&mut self, data: &[u8], len: usize)
        requires
            len <= data@.len(),
        ensures
            final(self)@ == fcs16_fold(old(self)@, data@.take(len as int)),
    {
        let ghost start = self.crc;
        let mut i: usize = 0;
        assert(data@.take(0) =~= Seq::<u8>::empty());
        while i < len
            invariant
                i <= len <= data@.len(),
                self.crc == fcs16_fold(start, data@.take(i as int)),
            decreases len - i,
        {
            proof {
                lemma_take_succ(data@, i as int);
            }
            self.crc = fcs16_update(self.crc, data[i]);
            i = i + 1;
        }
    }

    /// The CRC-16 of the bytes fed so far.
    pub fn get(&self) -> (r: u16)
        ensures
            r == !self@,
    {
        !self.crc
    }
}

/// Running FCS-32.
pub struct Crc32 {
    crc: u32,
}

impl View for Crc32 {
    type V = u32;

    closed spec fn view(&self) -> u32 {
        self.crc
    }
}


fn fcs32_update_bit(c: u32) -> (r: u32)
    ensures
        r == fcs32_bit(c),
{
    if c & 1 == 1 {
        (c >> 1u32) ^ 0xEDB88320u32
    } else {
        c >> 1u32
    }
}

fn fcs32_update(crc: u32, b: u8) -> (r: u32)
    ensures
        r == fcs32_byte(crc, b),
{
    let c = crc ^ (b as u32);
    let c = fcs32_update_bit(c);
    let c = fcs32_update_bit(c);
    let c = fcs32_update_bit(c);
    let c = fcs32_update_bit(c);
    let c = fcs32_update_bit(c);
    let c = fcs32_update_bit(c);
    let c = fcs32_update_bit(c);
    fcs32_update_bit(c)
}

impl Crc32 {
    /// A fresh FCS-32 register.
    pub fn new() -> (r: Crc32)
        ensures
            r@ == 0xFFFF_FFFFu32,
    {
        Crc32 { crc: 0xFFFF_FFFF }
    }

    /// Feeds the first `len` bytes of `data`.
    pub fn sum_bytes(&mut self, data: &[u8], len: usize)
        requires
            len <= data@.len(),
        ensures
            final(self)@ == fcs32_fold(old(self)@, data@.take(len as int)),
    {
        let ghost start = self.crc;
        let mut i: usize = 0;
        assert(data@.take(0) =~= Seq::<u8>::empty());
        while i < len
            invariant
                i <= len <= data@.len(),
                self.crc == fcs32_fold(start, data@.take(i as int)),
            decreases len - i,
        {
            proof {
                lemma_take_succ(data@, i as int);
            }
            self.crc = fcs32_update(self.crc, data[i]);
            i = i + 1;
        }
    }

    /// The CRC-32 of the bytes fed so far.
    pub fn get(&self) -> (r: u32)
        ensures
            r == !self@,
    {
        !self.crc
    }
}

/// Computes the frame check of kind `crc_type` over the first `len` bytes of
/// `data`, widened to 32 bits.
pub fn crc_compute(crc_type: HdlcCrcT, data: &[u8], len: usize) -> (r: u32)
    requires
        len <= data@.len(),
    ensures
        r == crc_value(crc_type, data@.take(len as int)),
{
    match crc_type {
        HdlcCrcT::HdlcCrc8 => {
            let mut crc = Crc8::new();
            crc.sum_bytes(data, len);
            crc.get() as u32
        },
        HdlcCrcT::HdlcCrc16 => {
            let mut crc = Crc16::new();
            crc.sum_bytes(data, len);
            crc.get() as u32
        },
        HdlcCrcT::HdlcCrc32 | HdlcCrcT::HdlcCrcDefault => {
            let mut crc = Crc32::new();
            crc.sum_bytes(data, len);
            crc.get()
        },
        HdlcCrcT::HdlcCrcOff => 0,
    }
}

} // verus!
