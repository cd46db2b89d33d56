//! The challenge-response exchange.
//!
//! Player and rule queries (and, on newer servers, info queries) are gated by
//! a challenge: the client sends the query with the sentinel token -1, the
//! server answers with a marker byte `'A'` and a 4-byte token, and the client
//! resends the query carrying that token. The two decisions of that exchange
//! live here; the caller only sends and receives the datagrams.

use crate::cursor::le_u32_at;
use crate::errors::Error;
use vstd::bytes::{spec_u32_to_le_bytes, u32_to_le_bytes};
use vstd::prelude::*;

verus! {

/// Marker byte that opens a challenge response: `'A'`.
pub const CHALLENGE_MARKER: u8 = 0x41;

/// The sentinel challenge token meaning "no challenge yet": -1.
pub const NO_CHALLENGE: i32 = -1i32;

/// The query `header` with the 4-byte little-endian `challenge` token
/// appended: the exact datagram a query sends.
pub open spec fn query_bytes(header: Seq<u8>, challenge: i32) -> Seq<u8> {
    header + spec_u32_to_le_bytes(challenge as u32)
}

/// Builds `header` followed by the little-endian `challenge` token.
pub fn with_challenge(header: &Vec<u8>, challenge: i32) -> (q: Vec<u8>)
    ensures
        q@ == query_bytes(header@, challenge),
{
    let mut q: Vec<u8> = Vec::new();
    let mut i: usize = 0;
    let n = header.len();
    while i < n
        invariant
            i <= n,
            n == header@.len(),
            q@ == header@.take(i as int),
        decreases n - i,
    {
        q.push(header[i]);
        proof {
            assert(header@.take(i + 1) =~= header@.take(i as int).push(header@[i as int]));
        }
        i = i + 1;
    }
    proof {
        assert(header@.take(n as int) =~= header@);
    }
    let mut token = u32_to_le_bytes(#[verifier::truncate] (challenge as u32));
    q.append(&mut token);
    q
}

/// Reads a challenge response: the marker byte `'A'` then the 4-byte
/// little-endian token. A missing marker is an invalid response; a buffer
/// too short for the marker or the token is exhaustion.
pub fn parse_challenge(data: &Vec<u8>) -> (r: Result<i32, Error>)
    ensures
        data@.len() == 0 ==> r == Err::<i32, Error>(Error::Io),
        data@.len() >= 1 && data@[0] != CHALLENGE_MARKER ==> r == Err::<i32, Error>(
            Error::InvalidResponse,
        ),
        1 <= data@.len() < 5 && data@[0] == CHALLENGE_MARKER ==> r == Err::<i32, Error>(Error::Io),
        data@.len() >= 5 && data@[0] == CHALLENGE_MARKER ==> r == Ok::<i32, Error>(
            le_u32_at(data@, 1) as i32,
        ),
{
    if data.len() == 0 {
        return Err(Error::Io);
    }
    if data[0] != CHALLENGE_MARKER {
        return Err(Error::InvalidResponse);
    }
    if data.len() < 5 {
        return Err(Error::Io);
    }
    let token = vstd::bytes::u32_from_le_bytes(
        vstd::slice::slice_subrange(data.as_slice(), 1, 5),
    );
    Ok(#[verifier::truncate] (token as i32))
}

} // verus!
