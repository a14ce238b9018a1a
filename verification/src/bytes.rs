//! Big-endian byte encodings of the fixed-width integers used on the wire:
//! every length prefix is a `u64` in network byte order, and a discovery
//! payload carries a `u16` port the same way.

use vstd::prelude::*;

verus! {

/// The eight bytes of `x` in big-endian order.
pub open spec fn spec_u64_to_be_bytes(x: u64) -> Seq<u8> {
    seq![
        (x >> 56) as u8,
        (x >> 48) as u8,
        (x >> 40) as u8,
        (x >> 32) as u8,
        (x >> 24) as u8,
        (x >> 16) as u8,
        (x >> 8) as u8,
        x as u8,
    ]
}

/// The `u64` read from eight bytes in big-endian order.
pub open spec fn spec_u64_from_be_bytes(s: Seq<u8>) -> u64
    recommends
        s.len() == 8,
{
    ((s[0] as u64) << 56) | ((s[1] as u64) << 48) | ((s[2] as u64) << 40) | ((s[3] as u64) << 32)
        | ((s[4] as u64) << 24) | ((s[5] as u64) << 16) | ((s[6] as u64) << 8) | (s[7] as u64)
}

/// The two bytes of `x` in big-endian order.
pub open spec fn spec_u16_to_be_bytes(x: u16) -> Seq<u8> {
    seq![(x >> 8) as u8, x as u8]
}

/// The `u16` read from two bytes in big-endian order.
pub open spec fn spec_u16_from_be_bytes(s: Seq<u8>) -> u16
    recommends
        s.len() == 2,
{
    ((s[0] as u16) << 8) | (s[1] as u16)
}

/// Decoding the big-endian bytes of a `u64` gives the number back.
pub proof fn lemma_u64_be_round_trip(x: u64)
    ensures
        spec_u64_from_be_bytes(spec_u64_to_be_bytes(x)) == x,
{
    let s = spec_u64_to_be_bytes(x);
    assert((((x >> 56) as u8 as u64) << 56) | (((x >> 48) as u8 as u64) << 48) | (((x
        >> 40) as u8 as u64) << 40) | (((x >> 32) as u8 as u64) << 32) | (((x
        >> 24) as u8 as u64) << 24) | (((x >> 16) as u8 as u64) << 16) | (((x >> 8) as u8 as u64)
        << 8) | (x as u8 as u64) == x) by (bit_vector);
}

/// Re-encoding the `u64` read from eight bytes gives the same bytes back:
/// every eight-byte string is the big-endian form of exactly one number.
pub proof fn lemma_u64_be_bytes_canonical(s: Seq<u8>)
    requires
        s.len() == 8,
    ensures
        spec_u64_to_be_bytes(spec_u64_from_be_bytes(s)) == s,
{
    let b0 = s[0];
    let b1 = s[1];
    let b2 = s[2];
    let b3 = s[3];
    let b4 = s[4];
    let b5 = s[5];
    let b6 = s[6];
    let b7 = s[7];
    let x = spec_u64_from_be_bytes(s);
    assert(x == ((b0 as u64) << 56) | ((b1 as u64) << 48) | ((b2 as u64) << 40) | ((b3 as u64)
        << 32) | ((b4 as u64) << 24) | ((b5 as u64) << 16) | ((b6 as u64) << 8) | (b7 as u64));
    assert({
        let x = ((b0 as u64) << 56) | ((b1 as u64) << 48) | ((b2 as u64) << 40) | ((b3 as u64)
            << 32) | ((b4 as u64) << 24) | ((b5 as u64) << 16) | ((b6 as u64) << 8) | (b7 as u64);
        &&& (x >> 56) as u8 == b0
        &&& (x >> 48) as u8 == b1
        &&& (x >> 40) as u8 == b2
        &&& (x >> 32) as u8 == b3
        &&& (x >> 24) as u8 == b4
        &&& (x >> 16) as u8 == b5
        &&& (x >> 8) as u8 == b6
        &&& x as u8 == b7
    }) by (bit_vector);
    assert(spec_u64_to_be_bytes(x) =~= s);
}

/// Decoding the big-endian bytes of a `u16` gives the number back.
pub proof fn lemma_u16_be_round_trip(x: u16)
    ensures
        spec_u16_from_be_bytes(spec_u16_to_be_bytes(x)) == x,
{
    assert((((x >> 8) as u8 as u16) << 8) | (x as u8 as u16) == x) by (bit_vector);
}

/// Re-encoding the `u16` read from two bytes gives the same bytes back.
pub proof fn lemma_u16_be_bytes_canonical(s: Seq<u8>)
    requires
        s.len() == 2,
    ensures
        spec_u16_to_be_bytes(spec_u16_from_be_bytes(s)) == s,
{
    let b0 = s[0];
    let b1 = s[1];
    assert({
        let x = ((b0 as u16) << 8) | (b1 as u16);
        (x >> 8) as u8 == b0 && x as u8 == b1
    }) by (bit_vector);
    assert(spec_u16_to_be_bytes(spec_u16_from_be_bytes(s)) =~= s);
}

/// Appends the eight big-endian bytes of `x` to `out`.
pub fn push_u64_be(out: &mut Vec<u8>, x: u64)
    ensures
        final(out)@ == old(out)@ + spec_u64_to_be_bytes(x),
{
    out.push((x >> 56) as u8);
    out.push((x >> 48) as u8);
    out.push((x >> 40) as u8);
    out.push((x >> 32) as u8);
    out.push((x >> 24) as u8);
    out.push((x >> 16) as u8);
    out.push((x >> 8) as u8);
    out.push(x as u8);
    proof {
        assert(out@ =~= old(out)@ + spec_u64_to_be_bytes(x));
    }
}

/// Appends the two big-endian bytes of `x` to `out`.
pub fn push_u16_be(out: &mut Vec<u8>, x: u16)
    ensures
        final(out)@ == old(out)@ + spec_u16_to_be_bytes(x),
{
    out.push((x >> 8) as u8);
    out.push(x as u8);
    proof {
        assert(out@ =~= old(out)@ + spec_u16_to_be_bytes(x));
    }
}

/// Reads the big-endian `u64` stored at `off` in `bytes`.
pub fn read_u64_be(bytes: &Vec<u8>, off: usize) -> (r: u64)
    requires
        off + 8 <= bytes@.len(),
    ensures
        r == spec_u64_from_be_bytes(bytes@.subrange(off as int, off as int + 8)),
{
    let n = bytes.len();
    proof {
        assert(off + 8 <= n);
    }
    let r = ((bytes[off] as u64) << 56) | ((bytes[off + 1] as u64) << 48) | ((bytes[off
        + 2] as u64) << 40) | ((bytes[off + 3] as u64) << 32) | ((bytes[off + 4] as u64) << 24) | ((
    bytes[off + 5] as u64) << 16) | ((bytes[off + 6] as u64) << 8) | (bytes[off + 7] as u64);
    proof {
        let s = bytes@.subrange(off as int, off as int + 8);
        assert(forall|i: int| 0 <= i < 8 ==> s[i] == bytes@[off + i]);
    }
    r
}

/// Reads the big-endian `u16` stored at `off` in `bytes`.
pub fn read_u16_be(bytes: &Vec<u8>, off: usize) -> (r: u16)
    requires
        off + 2 <= bytes@.len(),
    ensures
        r == spec_u16_from_be_bytes(bytes@.subrange(off as int, off as int + 2)),
{
    let n = bytes.len();
    proof {
        assert(off + 2 <= n);
    }
    let r = ((bytes[off] as u16) << 8) | (bytes[off + 1] as u16);
    proof {
        let s = bytes@.subrange(off as int, off as int + 2);
        assert(s[0] == bytes@[off as int] && s[1] == bytes@[off as int + 1]);
    }
    r
}

} // verus!
