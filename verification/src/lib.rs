//! Core of a serverless peer-to-peer chat: a length-prefixed framing codec,
//! the multicast discovery packet format and connection decision, the
//! per-peer session engine (mailbox, dispatch, liveness), and the chunked
//! file-transfer state machines.
//!
//! Network and disk I/O live outside this crate; every function here is a
//! pure computation or a state transition over plain values, with a verified
//! contract.

pub mod bytes;
pub mod discovery;
pub mod framing;
pub mod protocol;
pub mod session;
pub mod transfer;

use vstd::prelude::*;

verus! {

} // verus!
