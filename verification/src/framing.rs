//! The framing codec: every value on the wire travels as one frame, an
//! 8-byte big-endian length prefix followed by exactly that many payload
//! bytes.  The same framing carries the identity handshake and all
//! post-handshake message traffic.

use vstd::prelude::*;

use crate::bytes::{
    lemma_u64_be_round_trip, read_u64_be, push_u64_be, spec_u64_from_be_bytes,
    spec_u64_to_be_bytes,
};
use crate::protocol::StreamSerializerError;
use vstd::slice::{slice_subrange, slice_to_vec};

verus! {

/// Splits off a big-endian `u64` from the front of `b`, if 8 bytes are there.
pub open spec fn spec_parse_u64(b: Seq<u8>) -> Option<(u64, Seq<u8>)> {
    if b.len() < 8 {
        Option::None
    } else {
        Option::Some((spec_u64_from_be_bytes(b.subrange(0, 8)), b.subrange(8, b.len() as int)))
    }
}

/// Splits off a length-prefixed block from the front of `b`: a big-endian
/// `u64` length, then that many bytes.
pub open spec fn spec_parse_bytes(b: Seq<u8>) -> Option<(Seq<u8>, Seq<u8>)> {
    match spec_parse_u64(b) {
        Option::Some((n, rest)) => {
            if (rest.len() as int) < n as int {
                Option::None
            } else {
                Option::Some((rest.subrange(0, n as int), rest.subrange(n as int, rest.len() as int)))
            }
        },
        Option::None => Option::None,
    }
}

/// One frame: the payload length as a big-endian `u64`, then the payload.
pub open spec fn spec_frame(payload: Seq<u8>) -> Seq<u8> {
    spec_u64_to_be_bytes(payload.len() as u64) + payload
}

/// Reading one frame from the front of a stream: the payload declared by the
/// length prefix, and how many bytes of the stream the read consumes.
pub open spec fn spec_read_frame(b: Seq<u8>) -> Option<(Seq<u8>, int)> {
    match spec_parse_u64(b) {
        Option::Some((n, rest)) => {
            if (rest.len() as int) < n as int {
                Option::None
            } else {
                Option::Some((rest.subrange(0, n as int), 8 + n as int))
            }
        },
        Option::None => Option::None,
    }
}

/// A big-endian `u64` written at the front of a stream parses back to the
/// same number, leaving the rest of the stream.
pub proof fn lemma_parse_u64_exact(x: u64, rest: Seq<u8>)
    ensures
        spec_parse_u64(spec_u64_to_be_bytes(x) + rest) == Option::Some((x, rest)),
{
    let b = spec_u64_to_be_bytes(x) + rest;
    assert(b.subrange(0, 8) =~= spec_u64_to_be_bytes(x));
    assert(b.subrange(8, b.len() as int) =~= rest);
    lemma_u64_be_round_trip(x);
}

/// A length-prefixed block written at the front of a stream parses back to
/// the same bytes, leaving the rest of the stream.
pub proof fn lemma_parse_bytes_exact(data: Seq<u8>, rest: Seq<u8>)
    requires
        data.len() <= u64::MAX,
    ensures
        spec_parse_bytes(spec_u64_to_be_bytes(data.len() as u64) + data + rest) == Option::Some(
            (data, rest),
        ),
{
    let b = spec_u64_to_be_bytes(data.len() as u64) + data + rest;
    assert(b =~= spec_u64_to_be_bytes(data.len() as u64) + (data + rest));
    lemma_parse_u64_exact(data.len() as u64, data + rest);
    assert((data + rest).subrange(0, data.len() as int) =~= data);
    assert((data + rest).subrange(data.len() as int, (data + rest).len() as int) =~= rest);
}

/// A parsed length-prefixed block re-assembles to the bytes it was parsed
/// from: the block form of a byte string is unique.
pub proof fn lemma_parse_bytes_canonical(b: Seq<u8>)
    requires
        spec_parse_bytes(b) is Some,
    ensures
        ({
            let p = spec_parse_bytes(b)->Some_0;
            &&& p.0.len() <= u64::MAX
            &&& b == spec_u64_to_be_bytes(p.0.len() as u64) + p.0 + p.1
        }),
{
    let prefix = b.subrange(0, 8);
    let n = spec_u64_from_be_bytes(prefix);
    crate::bytes::lemma_u64_be_bytes_canonical(prefix);
    let p = spec_parse_bytes(b)->Some_0;
    assert(p.0.len() == n);
    assert(b =~= spec_u64_to_be_bytes(p.0.len() as u64) + p.0 + p.1);
}

/// Reading a frame from a stream that starts with `spec_frame(payload)`
/// yields exactly `payload` and consumes exactly `8 + payload.len()` bytes,
/// whatever follows the frame on the stream.
pub proof fn lemma_frame_round_trip(payload: Seq<u8>, rest: Seq<u8>)
    requires
        payload.len() <= u64::MAX,
    ensures
        spec_read_frame(spec_frame(payload) + rest) == Option::Some(
            (payload, 8 + payload.len() as int),
        ),
{
    let b = spec_frame(payload) + rest;
    assert(b =~= spec_u64_to_be_bytes(payload.len() as u64) + (payload + rest));
    lemma_parse_u64_exact(payload.len() as u64, payload + rest);
    assert((payload + rest).subrange(0, payload.len() as int) =~= payload);
}

/// Wraps a payload into one frame: length prefix, then the payload bytes.
pub fn frame_payload(payload: &Vec<u8>) -> (r: Vec<u8>)
    ensures
        r@ == spec_frame(payload@),
{
    let mut out: Vec<u8> = Vec::new();
    push_u64_be(&mut out, payload.len() as u64);
    out.extend_from_slice(payload.as_slice());
    out
}

/// Reads one frame out of `buf`, starting at `start`.  On success returns
/// the payload and the number of bytes consumed; fails when fewer than 8
/// bytes remain or the declared length overruns the buffer (a short read).
pub fn read_frame(buf: &Vec<u8>, start: usize) -> (r: Result<(Vec<u8>, usize), StreamSerializerError>)
    requires
        start <= buf@.len(),
    ensures
        match r {
            Ok(pc) => {
                &&& spec_read_frame(buf@.subrange(start as int, buf@.len() as int))
                    == Option::Some((pc.0@, pc.1 as int))
                &&& start + pc.1 <= buf@.len()
            },
            Err(_) => spec_read_frame(buf@.subrange(start as int, buf@.len() as int)) is None,
        },
{
    let total = buf.len();
    let ghost s = buf@.subrange(start as int, buf@.len() as int);
    if total - start < 8 {
        return Err(StreamSerializerError::StrError(short_frame_note()));
    }
    let len64 = read_u64_be(buf, start);
    proof {
        assert(s.subrange(0, 8) =~= buf@.subrange(start as int, start as int + 8));
    }
    let rem = total - start - 8;
    if (rem as u64) < len64 {
        proof {
            assert(s.subrange(8, s.len() as int).len() == rem);
        }
        return Err(StreamSerializerError::StrError(short_frame_note()));
    }
    let n = len64 as usize;
    let payload = slice_to_vec(slice_subrange(buf.as_slice(), start + 8, start + 8 + n));
    proof {
        assert(s.subrange(8, s.len() as int).subrange(0, n as int) =~= buf@.subrange(
            start as int + 8,
            start as int + 8 + n,
        ));
    }
    Ok((payload, 8 + n))
}

/// The error text reported when a frame cannot be read whole.
fn short_frame_note() -> String {
    String::from_str("frame truncated")
}

} // verus!
