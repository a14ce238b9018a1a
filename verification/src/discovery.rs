//! The discovery protocol: a peer announces itself on the local network
//! with one datagram holding a fixed shared-secret marker, a length prefix,
//! and a payload naming its TCP listening port and its identity id.  A
//! listener validates the marker, parses the payload, drops its own
//! announcements, and only then attempts a connection.
//!
//! The shared secret, like the local identity, is configuration: callers
//! pass both in, and the contracts hold for every choice of them.

use vstd::prelude::*;

use crate::bytes::{
    lemma_u16_be_round_trip, lemma_u64_be_round_trip, read_u16_be, read_u64_be, push_u16_be,
    push_u64_be, spec_u16_from_be_bytes, spec_u16_to_be_bytes, spec_u64_from_be_bytes,
    spec_u64_to_be_bytes,
};
use crate::framing::{lemma_parse_bytes_exact, spec_parse_bytes};
use crate::protocol::StreamSerializerError;
use vstd::string::StringExecFns;

verus! {

/// Largest packet handed to the multicast socket: the whole announcement
/// must fit in a single datagram.
pub const MAX_DISCOVERY_PACKET: usize = 4048;

/// Value that, by being broadcast, announces a peer's presence: its TCP
/// listening port and its identity id.
#[derive(Debug, Clone, Copy, PartialEq, Eq, Structural)]
pub struct UserDiscovery {
    pub port: u16,
    pub user_id: u64,
}

/// The 10-byte payload of an announcement: port, then id, big-endian.
pub open spec fn spec_encode_user_discovery(d: UserDiscovery) -> Seq<u8> {
    spec_u16_to_be_bytes(d.port) + spec_u64_to_be_bytes(d.user_id)
}

/// One whole discovery packet: shared secret, length prefix, payload.
pub open spec fn spec_discovery_packet(d: UserDiscovery, secret: Seq<u8>) -> Seq<u8> {
    secret + spec_u64_to_be_bytes(10) + spec_encode_user_discovery(d)
}

/// The announcement carried by `b`, if `b` starts with the shared secret
/// and the rest is exactly one length-prefixed announcement payload.
pub open spec fn spec_parse_discovery_packet(b: Seq<u8>, secret: Seq<u8>) -> Option<UserDiscovery> {
    if b.len() < secret.len() + 8 {
        Option::None
    } else if b.subrange(0, secret.len() as int) != secret {
        Option::None
    } else {
        let rest = b.subrange(secret.len() as int, b.len() as int);
        match spec_parse_bytes(rest) {
            Option::Some((payload, tail)) => {
                if tail.len() == 0 && payload.len() == 10 {
                    Option::Some(
                        UserDiscovery {
                            port: spec_u16_from_be_bytes(payload.subrange(0, 2)),
                            user_id: spec_u64_from_be_bytes(payload.subrange(2, 10)),
                        },
                    )
                } else {
                    Option::None
                }
            },
            Option::None => Option::None,
        }
    }
}

/// What a listener does with one received datagram: the announcement to
/// connect to, or nothing.  No connection is attempted when the packet does
/// not parse under the shared secret, or when it carries the listener's own
/// identity id.
pub open spec fn spec_connect_decision(packet: Seq<u8>, secret: Seq<u8>, local_id: u64) -> Option<
    UserDiscovery,
> {
    match spec_parse_discovery_packet(packet, secret) {
        Option::Some(d) => {
            if d.user_id == local_id {
                Option::None
            } else {
                Option::Some(d)
            }
        },
        Option::None => Option::None,
    }
}

/// Parsing a built discovery packet gives the announcement back, for every
/// shared secret.
pub proof fn lemma_discovery_round_trip(d: UserDiscovery, secret: Seq<u8>)
    ensures
        spec_parse_discovery_packet(spec_discovery_packet(d, secret), secret) == Option::Some(d),
{
    let payload = spec_encode_user_discovery(d);
    let b = spec_discovery_packet(d, secret);
    assert(b.subrange(0, secret.len() as int) =~= secret);
    let rest = b.subrange(secret.len() as int, b.len() as int);
    assert(rest =~= spec_u64_to_be_bytes(payload.len() as u64) + payload + Seq::<u8>::empty());
    lemma_parse_bytes_exact(payload, Seq::<u8>::empty());
    assert(payload.subrange(0, 2) =~= spec_u16_to_be_bytes(d.port));
    assert(payload.subrange(2, 10) =~= spec_u64_to_be_bytes(d.user_id));
    lemma_u16_be_round_trip(d.port);
    lemma_u64_be_round_trip(d.user_id);
}

/// Only genuine packets are accepted: whatever the parser returns, building
/// the packet for that announcement gives back exactly the bytes parsed —
/// no stray datagram that is not a whole discovery packet under this secret
/// can be mistaken for one.
pub proof fn lemma_discovery_packet_canonical(b: Seq<u8>, secret: Seq<u8>)
    requires
        spec_parse_discovery_packet(b, secret) is Some,
    ensures
        b == spec_discovery_packet(spec_parse_discovery_packet(b, secret)->Some_0, secret),
{
    let rest = b.subrange(secret.len() as int, b.len() as int);
    let p = spec_parse_bytes(rest)->Some_0;
    crate::framing::lemma_parse_bytes_canonical(rest);
    crate::bytes::lemma_u16_be_bytes_canonical(p.0.subrange(0, 2));
    crate::bytes::lemma_u64_be_bytes_canonical(p.0.subrange(2, 10));
    assert(p.0 =~= p.0.subrange(0, 2) + p.0.subrange(2, 10));
    assert(b =~= spec_discovery_packet(
        spec_parse_discovery_packet(b, secret)->Some_0,
        secret,
    ));
}

/// A datagram whose shared-secret prefix is wrong, or too short to hold
/// one, never produces a connection attempt.
pub proof fn lemma_bad_secret_no_connect(packet: Seq<u8>, secret: Seq<u8>, local_id: u64)
    requires
        packet.len() < secret.len() || packet.subrange(0, secret.len() as int) != secret,
    ensures
        spec_connect_decision(packet, secret, local_id) is None,
{
}

/// A node never attempts to connect to an announcement carrying its own
/// identity id.
pub proof fn lemma_own_id_no_connect(packet: Seq<u8>, secret: Seq<u8>, local_id: u64)
    ensures
        spec_connect_decision(packet, secret, local_id) matches Option::Some(d) ==> d.user_id
            != local_id,
{
}

/// True when the first `secret.len()` bytes of `packet` are the secret.
fn prefix_matches(packet: &Vec<u8>, secret: &Vec<u8>) -> (r: bool)
    requires
        secret@.len() <= packet@.len(),
    ensures
        r == (packet@.subrange(0, secret@.len() as int) == secret@),
{
    let n = secret.len();
    let mut i: usize = 0;
    while i < n
        invariant
            i <= n == secret@.len() <= packet@.len(),
            forall|j: int| 0 <= j < i ==> packet@[j] == secret@[j],
        decreases n - i,
    {
        if packet[i] != secret[i] {
            proof {
                assert(packet@.subrange(0, secret@.len() as int)[i as int] != secret@[i as int]);
            }
            return false;
        }
        i += 1;
    }
    proof {
        assert(packet@.subrange(0, secret@.len() as int) =~= secret@);
    }
    true
}

impl UserDiscovery {
    /// Builds the discovery packet for this announcement under the given
    /// shared secret.  The bound on the secret keeps the whole packet
    /// inside one datagram.
    pub fn to_packet(&self, secret: &Vec<u8>) -> (r: Result<Vec<u8>, StreamSerializerError>)
        requires
            secret@.len() + 18 <= MAX_DISCOVERY_PACKET,
        ensures
            r matches Ok(p) && p@ == spec_discovery_packet(*self, secret@),
            r matches Ok(p) && p@.len() == secret@.len() + 18,
    {
        let mut out: Vec<u8> = Vec::new();
        out.extend_from_slice(secret.as_slice());
        push_u64_be(&mut out, 10);
        push_u16_be(&mut out, self.port);
        push_u64_be(&mut out, self.user_id);
        proof {
            assert(out@ =~= spec_discovery_packet(*self, secret@));
        }
        Ok(out)
    }

    /// Parses a received datagram under the given shared secret.  Returns
    /// the announcement exactly when the datagram is one whole discovery
    /// packet with the right secret.
    pub fn from_packet(packet: Vec<u8>, secret: &Vec<u8>) -> (r: Result<
        Self,
        StreamSerializerError,
    >)
        ensures
            match r {
                Ok(d) => spec_parse_discovery_packet(packet@, secret@) == Option::Some(d),
                Err(_) => spec_parse_discovery_packet(packet@, secret@) is None,
            },
    {
        let total = packet.len();
        let sl = secret.len();
        if total < sl || total - sl < 8 {
            return Err(StreamSerializerError::Decode(
                String::from_str("discovery packet too short"),
            ));
        }
        if !prefix_matches(&packet, secret) {
            return Err(StreamSerializerError::Decode(
                String::from_str("shared-secret marker does not match"),
            ));
        }
        let ghost rest = packet@.subrange(sl as int, packet@.len() as int);
        let n = read_u64_be(&packet, sl);
        proof {
            assert(rest.subrange(0, 8) =~= packet@.subrange(sl as int, sl as int + 8));
            assert(rest.subrange(8, rest.len() as int).len() == total - sl - 8);
        }
        if n != (total - sl - 8) as u64 || n != 10 {
            return Err(StreamSerializerError::Decode(
                String::from_str("discovery packet has a bad length"),
            ));
        }
        let port = read_u16_be(&packet, sl + 8);
        let user_id = read_u64_be(&packet, sl + 10);
        proof {
            let payload = rest.subrange(8, rest.len() as int).subrange(0, 10);
            assert(payload.subrange(0, 2) =~= packet@.subrange(sl as int + 8, sl as int + 10));
            assert(payload.subrange(2, 10) =~= packet@.subrange(sl as int + 10, sl as int + 18));
        }
        Ok(UserDiscovery { port, user_id })
    }
}

/// The whole per-datagram decision of the discovery listener: parse the
/// packet under the shared secret, drop it on any parse failure, drop the
/// node's own announcements, and hand back the announcement to connect to
/// otherwise.
pub fn handle_datagram(packet: Vec<u8>, secret: &Vec<u8>, local_id: u64) -> (r: Option<
    UserDiscovery,
>)
    ensures
        r == spec_connect_decision(packet@, secret@, local_id),
{
    match UserDiscovery::from_packet(packet, secret) {
        Ok(d) => {
            if d.user_id == local_id {
                None
            } else {
                Some(d)
            }
        },
        Err(_) => None,
    }
}

} // verus!
