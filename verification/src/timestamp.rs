//! The payload of a request on the wire: the sender's clock reading, eight
//! bytes, least significant first.  The server echoes the payload, and the
//! receiver reads the clock reading back from it to measure the round trip.

use vstd::bytes::spec_u64_from_le_bytes;
use vstd::bytes::spec_u64_to_le_bytes;
use vstd::bytes::lemma_auto_spec_u64_to_from_le_bytes;
use vstd::bytes::u64_from_le_bytes;
use vstd::bytes::u64_to_le_bytes;
use vstd::prelude::*;

verus! {

/// The length of a payload in bytes.
pub const PAYLOAD_LEN: usize = 8;

/// The payload that carries the clock reading `stamp`.
pub fn encode_timestamp(stamp: u64) -> (payload: Vec<u8>)
    ensures
        payload@ == spec_u64_to_le_bytes(stamp),
        payload@.len() == PAYLOAD_LEN,
{
    u64_to_le_bytes(stamp)
}

/// The clock reading that a payload carries.
pub fn decode_timestamp(payload: &[u8]) -> (stamp: u64)
    requires
        payload@.len() == PAYLOAD_LEN,
    ensures
        stamp == spec_u64_from_le_bytes(payload@),
{
    u64_from_le_bytes(payload)
}

/// A clock reading that is sent and echoed comes back as it was, and a
/// payload determines its clock reading.
pub proof fn lemma_echo_round_trip(stamp: u64)
    ensures
        spec_u64_to_le_bytes(stamp).len() == PAYLOAD_LEN,
        spec_u64_from_le_bytes(spec_u64_to_le_bytes(stamp)) == stamp,
{
    lemma_auto_spec_u64_to_from_le_bytes();
}

} // verus!
