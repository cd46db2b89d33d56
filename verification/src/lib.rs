//! Client-side engine for a UDP game-server query protocol: datagram framing
//! and fragment reassembly, the challenge-response handshake, and binary
//! decoders for the server-info, player-list and rule-list records.
//!
//! The networking itself (sockets, timeouts) is left to the caller; every
//! function here is a pure transformation over byte buffers and typed records.

pub mod challenge;
pub mod cursor;
pub mod errors;
pub mod info;
pub mod players;
pub mod rules;
pub mod strings;
pub mod transport;

use vstd::prelude::*;

verus! {

/// Default ceiling on the size of a received datagram, in bytes.
pub const DEFAULT_MAX_SIZE: usize = 1400;

} // verus!
