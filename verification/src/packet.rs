//! Wire format of a single datagram: a 16-bit big-endian sequence id, one
//! packet-kind byte, and an optional payload.
use vstd::prelude::*;

verus! {

/// The four packet kinds, carried in one byte on the wire.
#[derive(Clone, Copy, PartialEq, Eq, Structural, Debug)]
pub enum SafeReadWritePacket {
    Write,
    Ack,
    ResendRequest,
    End,
}

/// The byte that stands for a packet kind on the wire.
pub open spec fn spec_kind_byte(k: SafeReadWritePacket) -> u8 {
    match k {
        SafeReadWritePacket::Write => 0,
        SafeReadWritePacket::Ack => 1,
        SafeReadWritePacket::ResendRequest => 2,
        SafeReadWritePacket::End => 3,
    }
}

/// Encode a packet kind as its wire byte.
pub fn kind_byte(k: SafeReadWritePacket) -> (b: u8)
    ensures
        b == spec_kind_byte(k),
{
    match k {
        SafeReadWritePacket::Write => 0,
        SafeReadWritePacket::Ack => 1,
        SafeReadWritePacket::ResendRequest => 2,
        SafeReadWritePacket::End => 3,
    }
}

/// The 16-bit value read big-endian from two bytes.
pub open spec fn spec_u16_of_be(hi: u8, lo: u8) -> u16 {
    (hi * 256 + lo) as u16
}

/// High byte of the big-endian encoding of a 16-bit value.
pub open spec fn spec_u16_hi(x: u16) -> u8 {
    (x / 256) as u8
}

/// Low byte of the big-endian encoding of a 16-bit value.
pub open spec fn spec_u16_lo(x: u16) -> u8 {
    (x % 256) as u8
}

/// Decoding the two big-endian bytes of a 16-bit value gives it back.
pub proof fn lemma_u16_be_round_trip(x: u16)
    ensures
        spec_u16_of_be(spec_u16_hi(x), spec_u16_lo(x)) == x,
{
    assert((x / 256) * 256 + x % 256 == x) by (nonlinear_arith);
}

/// Encoding the 16-bit value read from two bytes gives back those bytes.
pub proof fn lemma_u16_be_inverse(hi: u8, lo: u8)
    ensures
        spec_u16_hi(spec_u16_of_be(hi, lo)) == hi,
        spec_u16_lo(spec_u16_of_be(hi, lo)) == lo,
{
    assert((hi * 256 + lo) / 256 == hi && (hi * 256 + lo) % 256 == lo) by (nonlinear_arith)
        requires
            hi <= 255,
            lo <= 255,
    ;
}

/// Read a 16-bit value from two big-endian bytes.
pub fn u16_from_be(hi: u8, lo: u8) -> (x: u16)
    ensures
        x == spec_u16_of_be(hi, lo),
{
    hi as u16 * 256 + lo as u16
}

/// Split a 16-bit value into its two big-endian bytes.
pub fn u16_to_be(x: u16) -> (b: (u8, u8))
    ensures
        b.0 == spec_u16_hi(x),
        b.1 == spec_u16_lo(x),
        spec_u16_of_be(b.0, b.1) == x,
{
    proof {
        lemma_u16_be_round_trip(x);
    }
    ((x / 256) as u8, (x % 256) as u8)
}

/// The eight big-endian bytes of a 64-bit value, most significant first.
pub open spec fn spec_u64_to_be(x: u64) -> Seq<u8> {
    seq![
        ((x >> 56) & 0xFF) as u8,
        ((x >> 48) & 0xFF) as u8,
        ((x >> 40) & 0xFF) as u8,
        ((x >> 32) & 0xFF) as u8,
        ((x >> 24) & 0xFF) as u8,
        ((x >> 16) & 0xFF) as u8,
        ((x >> 8) & 0xFF) as u8,
        (x & 0xFF) as u8,
    ]
}

/// The 64-bit value read big-endian from eight bytes.
pub open spec fn spec_u64_of_be(b: Seq<u8>) -> u64 {
    ((b[0] as u64) << 56 | (b[1] as u64) << 48 | (b[2] as u64) << 40 | (b[3] as u64) << 32 | (
    b[4] as u64) << 24 | (b[5] as u64) << 16 | (b[6] as u64) << 8 | (b[7] as u64)) as u64
}

/// Decoding the eight big-endian bytes of a 64-bit value gives it back.
pub proof fn lemma_u64_be_round_trip(x: u64)
    ensures
        spec_u64_of_be(spec_u64_to_be(x)) == x,
{
    assert((((((x >> 56) & 0xFF) as u8) as u64) << 56 | ((((x >> 48) & 0xFF) as u8) as u64) << 48
        | ((((x >> 40) & 0xFF) as u8) as u64) << 40 | ((((x >> 32) & 0xFF) as u8) as u64) << 32
        | ((((x >> 24) & 0xFF) as u8) as u64) << 24 | ((((x >> 16) & 0xFF) as u8) as u64) << 16
        | ((((x >> 8) & 0xFF) as u8) as u64) << 8 | (((x & 0xFF) as u8) as u64)) == x)
        by (bit_vector);
}

/// Write a 64-bit value as eight big-endian bytes.
pub fn u64_to_be_bytes(x: u64) -> (b: Vec<u8>)
    ensures
        b@ == spec_u64_to_be(x),
        b@.len() == 8,
{
    proof {
        assert(forall|s: u64| ((x >> s) & 0xFF) <= 0xFF) by (bit_vector);
    }
    let mut b: Vec<u8> = Vec::new();
    b.push(((x >> 56) & 0xFF) as u8);
    b.push(((x >> 48) & 0xFF) as u8);
    b.push(((x >> 40) & 0xFF) as u8);
    b.push(((x >> 32) & 0xFF) as u8);
    b.push(((x >> 24) & 0xFF) as u8);
    b.push(((x >> 16) & 0xFF) as u8);
    b.push(((x >> 8) & 0xFF) as u8);
    b.push((x & 0xFF) as u8);
    proof {
        assert(b@ =~= spec_u64_to_be(x));
    }
    b
}

/// Read a 64-bit value from eight big-endian bytes.
pub fn u64_from_be_bytes(b: &[u8]) -> (x: u64)
    requires
        b@.len() == 8,
    ensures
        x == spec_u64_of_be(b@),
{
    (b[0] as u64) << 56 | (b[1] as u64) << 48 | (b[2] as u64) << 40 | (b[3] as u64) << 32 | (
    b[4] as u64) << 24 | (b[5] as u64) << 16 | (b[6] as u64) << 8 | (b[7] as u64)
}

/// A framed datagram: big-endian sequence id, kind byte, payload.
pub open spec fn spec_frame(id: u16, k: SafeReadWritePacket, payload: Seq<u8>) -> Seq<u8> {
    seq![spec_u16_hi(id), spec_u16_lo(id), spec_kind_byte(k)] + payload
}

/// The sequence id of a framed datagram.
pub open spec fn spec_frame_id(d: Seq<u8>) -> u16
    recommends
        d.len() >= 3,
{
    spec_u16_of_be(d[0], d[1])
}

/// The payload of a framed datagram: everything after the 3-byte header.
pub open spec fn spec_frame_payload(d: Seq<u8>) -> Seq<u8>
    recommends
        d.len() >= 3,
{
    d.skip(3)
}

/// Framing then reading back gives the same id, kind byte and payload.
pub proof fn lemma_frame_round_trip(id: u16, k: SafeReadWritePacket, payload: Seq<u8>)
    ensures
        spec_frame(id, k, payload).len() == payload.len() + 3,
        spec_frame_id(spec_frame(id, k, payload)) == id,
        spec_frame(id, k, payload)[2] == spec_kind_byte(k),
        spec_frame_payload(spec_frame(id, k, payload)) == payload,
{
    lemma_u16_be_round_trip(id);
    assert(spec_frame_payload(spec_frame(id, k, payload)) =~= payload);
}

/// Frame a payload under a sequence id and kind.
pub fn frame_packet(id: u16, k: SafeReadWritePacket, payload: &[u8]) -> (d: Vec<u8>)
    requires
        payload@.len() <= crate::MAX_BUF_LEN,
    ensures
        d@ == spec_frame(id, k, payload@),
        d@.len() == payload@.len() + 3,
{
    let mut d: Vec<u8> = Vec::new();
    let (hi, lo) = u16_to_be(id);
    d.push(hi);
    d.push(lo);
    d.push(kind_byte(k));
    let mut i: usize = 0;
    while i < payload.len()
        invariant
            i <= payload@.len(),
            d@.len() == i + 3,
            d@ =~= spec_frame(id, k, payload@.take(i as int)),
        decreases payload@.len() - i,
    {
        d.push(payload[i]);
        i = i + 1;
        proof {
            assert(payload@.take(i as int) =~= payload@.take(i - 1) + seq![payload@[i - 1]]);
            assert(d@ =~= spec_frame(id, k, payload@.take(i as int)));
        }
    }
    proof {
        assert(payload@.take(payload@.len() as int) =~= payload@);
    }
    d
}

/// Copy a byte slice into a fresh vector.
pub fn bytes_of(src: &[u8]) -> (r: Vec<u8>)
    ensures
        r@ == src@,
{
    let mut r: Vec<u8> = Vec::new();
    let mut i: usize = 0;
    while i < src.len()
        invariant
            i <= src@.len(),
            r@ =~= src@.take(i as int),
        decreases src@.len() - i,
    {
        r.push(src[i]);
        i = i + 1;
        proof {
            assert(r@ =~= src@.take(i as int));
        }
    }
    proof {
        assert(src@.take(src@.len() as int) =~= src@);
    }
    r
}

/// Copy the bytes `[from, to)` of a slice into a fresh vector.
pub fn bytes_range(src: &[u8], from: usize, to: usize) -> (r: Vec<u8>)
    requires
        from <= to <= src@.len(),
    ensures
        r@ == src@.subrange(from as int, to as int),
{
    let mut r: Vec<u8> = Vec::new();
    let mut i: usize = from;
    while i < to
        invariant
            from <= i <= to <= src@.len(),
            r@ =~= src@.subrange(from as int, i as int),
        decreases to - i,
    {
        r.push(src[i]);
        i = i + 1;
        proof {
            assert(r@ =~= src@.subrange(from as int, i as int));
        }
    }
    r
}

/// Whether two byte slices hold the same bytes.
pub fn bytes_eq(a: &[u8], b: &[u8]) -> (r: bool)
    ensures
        r == (a@ == b@),
{
    if a.len() != b.len() {
        return false;
    }
    let mut i: usize = 0;
    while i < a.len()
        invariant
            i <= a@.len(),
            a@.len() == b@.len(),
            forall|k: int| 0 <= k < i ==> a@[k] == b@[k],
        decreases a@.len() - i,
    {
        if a[i] != b[i] {
            return false;
        }
        i = i + 1;
    }
    proof {
        assert(a@ =~= b@);
    }
    true
}

/// Whether a payload of the given length fits in one packet beside the
/// 3-byte header.
pub fn payload_fits(len: usize) -> (ok: bool)
    ensures
        ok == (len <= crate::MAX_BUF_LEN),
{
    len <= crate::MAX_BUF_LEN
}

} // verus!
