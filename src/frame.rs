use vstd::prelude::*;
use crate::util::push_all;

verus! {

/// The largest handshake frame, its 4 length bytes included.
pub const MAX_FRAME_LEN: u32 = 4096;

/// `n` as 4 little-endian bytes.
pub open spec fn le32(n: u32) -> Seq<u8> {
    seq![(n & 0xff) as u8, ((n >> 8u32) & 0xff) as u8, ((n >> 16u32) & 0xff) as u8, ((n >> 24u32) & 0xff) as u8]
}

/// The little-endian `u32` in the first 4 bytes of `s`.
pub open spec fn read_le32(s: Seq<u8>) -> u32 {
    le32_value(s[0], s[1], s[2], s[3])
}

pub open spec fn le32_value(b0: u8, b1: u8, b2: u8, b3: u8) -> u32 {
    (b0 as u32) | ((b1 as u32) << 8u32) | ((b2 as u32) << 16u32) | ((b3 as u32) << 24u32)
}

/// Writing a `u32` and reading it back gives it again.
pub proof fn lemma_le32_round_trip(n: u32)
    ensures
        read_le32(le32(n)) == n,
{
    let b0 = (n & 0xff) as u8;
    let b1 = ((n >> 8u32) & 0xff) as u8;
    let b2 = ((n >> 16u32) & 0xff) as u8;
    let b3 = ((n >> 24u32) & 0xff) as u8;
    assert(le32_value(b0, b1, b2, b3) == n) by (bit_vector)
        requires
            b0 == (n & 0xff) as u8,
            b1 == ((n >> 8u32) & 0xff) as u8,
            b2 == ((n >> 16u32) & 0xff) as u8,
            b3 == ((n >> 24u32) & 0xff) as u8,
    ;
}

/// Appends `n` as 4 little-endian bytes.
pub fn push_le32(v: &mut Vec<u8>, n: u32)
    ensures
        final(v)@ == old(v)@ + le32(n),
{
    v.push((n & 0xff) as u8);
    v.push(((n >> 8) & 0xff) as u8);
    v.push(((n >> 16) & 0xff) as u8);
    v.push(((n >> 24) & 0xff) as u8);
    assert(final(v)@ =~= old(v)@ + le32(n));
}

/// Reads the little-endian `u32` at `i`.
pub fn get_le32(s: &[u8], i: usize) -> (r: u32)
    requires
        i + 4 <= s@.len(),
    ensures
        r == read_le32(s@.subrange(i as int, i + 4)),
{
    (s[i] as u32) | ((s[i + 1] as u32) << 8) | ((s[i + 2] as u32) << 16) | ((s[i + 3] as u32)
        << 24)
}

/// A byte string with its length as a little-endian `u32` in front.
pub open spec fn slice_field(s: Seq<u8>) -> Seq<u8> {
    le32(s.len() as u32) + s
}

/// Appends `slice` with its length in front.
pub fn write_slice(data: &mut Vec<u8>, slice: &[u8])
    requires
        slice@.len() <= u32::MAX,
    ensures
        final(data)@ == old(data)@ + slice_field(slice@),
{
    push_le32(data, slice.len() as u32);
    push_all(data, slice);
    assert(final(data)@ =~= old(data)@ + slice_field(slice@));
}

/// What libflate's zlib encoder makes of a payload.
pub uninterp spec fn zlib_deflated(p: Seq<u8>) -> Seq<u8>;

/// What libflate's zlib decoder makes of a stream: the payload, or `None` on an
/// error.
pub uninterp spec fn zlib_inflated(c: Seq<u8>) -> Option<Seq<u8>>;

/// Relies on `libflate::zlib::Encoder` (written to in full, then finished): the
/// stream depends on the payload alone, and its decoder gives the payload back.
/// The encoder fails only where its writer does, and a `Vec` writer does not.
#[verifier::external_body]
fn zlib_encode(p: &[u8]) -> (r: Option<Vec<u8>>)
    ensures
        r.is_some(),
        r.is_some() ==> r.unwrap()@ == zlib_deflated(p@) && zlib_inflated(r.unwrap()@) == Some(
            p@,
        ),
{
    let mut encoder = libflate::zlib::Encoder::new(Vec::new()).ok()?;
    std::io::Write::write_all(&mut encoder, p).ok()?;
    encoder.finish().into_result().ok()
}

/// Relies on `libflate::zlib::Decoder` (read to the end): the outcome depends on
/// the stream alone. Inputs are kept to the size of a handshake frame.
#[verifier::external_body]
fn zlib_decode(c: &[u8]) -> (r: Option<Vec<u8>>)
    requires
        c@.len() <= MAX_FRAME_LEN - 4,
    ensures
        r.is_some() == zlib_inflated(c@).is_some(),
        r.is_some() ==> r.unwrap()@ == zlib_inflated(c@).unwrap(),
{
    let mut decoder = libflate::zlib::Decoder::new(c).ok()?;
    let mut out = Vec::new();
    std::io::Read::read_to_end(&mut decoder, &mut out).ok()?;
    Some(out)
}

/// A handshake frame: the total length (4 included), then the zlib stream.
pub open spec fn frame_of(c: Seq<u8>) -> Seq<u8> {
    le32((c.len() + 4) as u32) + c
}

/// Compresses a payload and puts the length in front; `None` where the frame
/// would not fit a `u32` length.
pub fn compress_bytes(p: &[u8]) -> (r: Option<Vec<u8>>)
    ensures
        r.is_some() == (zlib_deflated(p@).len() + 4 <= u32::MAX),
        r.is_some() ==> zlib_deflated(p@).len() + 4 <= u32::MAX && r.unwrap()@ == frame_of(
            zlib_deflated(p@),
        ),
        r.is_some() && r.unwrap()@.len() <= MAX_FRAME_LEN ==> forall|rest: Seq<u8>|
            frame_payload(#[trigger] (r.unwrap()@ + rest)) == Some(p@) && declared_len(
                r.unwrap()@ + rest,
            ) == r.unwrap()@.len(),
{
    let c = match zlib_encode(p) {
        Some(c) => c,
        None => return None,
    };
    assert(c@ == zlib_deflated(p@));
    if c.len() > (u32::MAX - 4) as usize {
        return None;
    }
    let mut r: Vec<u8> = Vec::new();
    push_le32(&mut r, c.len() as u32 + 4);
    push_all(&mut r, c.as_slice());
    assert(r@ =~= frame_of(c@));
    proof {
        if r@.len() <= MAX_FRAME_LEN {
            assert forall|rest: Seq<u8>|
                frame_payload(#[trigger] (r@ + rest)) == Some(p@) && declared_len(r@ + rest)
                    == r@.len() by {
                lemma_frame_round_trip(c@, p@, rest);
            }
        }
    }
    Some(r)
}

/// The length that a frame's first 4 bytes declare.
pub open spec fn declared_len(d: Seq<u8>) -> int {
    read_le32(d.subrange(0, 4)) as int
}

/// Whether the declared length is one a frame can have.
pub open spec fn length_ok(d: Seq<u8>) -> bool {
    4 <= declared_len(d) <= MAX_FRAME_LEN
}

/// More bytes are needed before the frame at the start of `d` can be read.
pub open spec fn frame_incomplete(d: Seq<u8>) -> bool {
    d.len() < 4 || (length_ok(d) && d.len() < declared_len(d))
}

/// The payload of the complete frame at the start of `d`, if it decompresses.
pub open spec fn frame_payload(d: Seq<u8>) -> Option<Seq<u8>> {
    if d.len() >= 4 && length_ok(d) && d.len() >= declared_len(d) {
        zlib_inflated(d.subrange(4, declared_len(d)))
    } else {
        None
    }
}

/// A frame of `c` decodes to the payload that `c` inflates to, with anything
/// after it left alone, when it is no longer than the largest frame.
pub proof fn lemma_frame_round_trip(c: Seq<u8>, p: Seq<u8>, rest: Seq<u8>)
    requires
        zlib_inflated(c) == Some(p),
        c.len() + 4 <= MAX_FRAME_LEN,
    ensures
        declared_len(frame_of(c) + rest) == c.len() + 4,
        frame_payload(frame_of(c) + rest) == Some(p),
{
    let d = frame_of(c) + rest;
    lemma_le32_round_trip((c.len() + 4) as u32);
    assert(d.subrange(0, 4) =~= le32((c.len() + 4) as u32));
    assert(d.subrange(4, c.len() + 4 as int) =~= c);
}

/// What reading a handshake frame from the start of a buffer gives.
#[derive(Debug)]
pub enum FrameDecode {
    /// Not all of the frame is there yet.
    Incomplete,
    /// The length is out of range, or the stream does not decompress.
    Malformed,
    /// A whole frame of `consumed` bytes, and its decompressed payload.
    Complete { consumed: usize, payload: Vec<u8> },
}

/// Reads the handshake frame at the start of `d`.
pub fn decode_frame(d: &[u8]) -> (r: FrameDecode)
    ensures
        (r is Incomplete) == frame_incomplete(d@),
        (r is Complete) == frame_payload(d@).is_some(),
        r matches FrameDecode::Complete { consumed, payload } ==> consumed == declared_len(d@)
            && payload@ == frame_payload(d@).unwrap(),
{
    if d.len() < 4 {
        return FrameDecode::Incomplete;
    }
    let n = get_le32(d, 0);
    if n < 4 || n > MAX_FRAME_LEN {
        return FrameDecode::Malformed;
    }
    let n = n as usize;
    if d.len() < n {
        return FrameDecode::Incomplete;
    }
    let c = crate::raw_command::sub_copy(d, 4, n);
    match zlib_decode(c.as_slice()) {
        Some(payload) => FrameDecode::Complete { consumed: n, payload },
        None => FrameDecode::Malformed,
    }
}

} // verus!
