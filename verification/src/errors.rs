//! The error type shared by the transport engine and the record decoders.

use vstd::prelude::*;

verus! {

/// Everything that can go wrong while querying a server.
///
/// All errors are fatal to the current call; no retry happens inside the
/// library. `Io` stands for a failed socket operation or for a buffer that
/// ran out in the middle of a field.
#[derive(Debug, Clone, Copy, PartialEq, Eq)]
pub enum Error {
    /// A socket operation failed, or a buffer was exhausted mid-field.
    Io,
    /// Memory for a response could not be reserved.
    TryReserveError,
    /// A socket operation did not finish within the configured timeout.
    ErrTimeout,
    /// A datagram did not have the expected shape or discriminant.
    InvalidResponse,
    /// A fragment carried a response id different from the first fragment's.
    MismatchID,
    /// A compressed response declared a decompressed size over the 1 MiB bound.
    InvalidBz2Size,
    /// The checksum of the decompressed payload did not match the declared one.
    CheckSumMismatch,
    /// A decode error described by a fixed message.
    Other(&'static str),
}

pub type Result<T> = core::result::Result<T, Error>;

impl Error {
    /// A fixed human-readable description of the error.
    pub fn message(&self) -> (r: &'static str)
        ensures
            self matches Error::Other(m) ==> r == m,
    {
        match self {
            Error::Io => "IO error",
            Error::TryReserveError => "Failed to reserve memory",
            Error::ErrTimeout => "Socket timed out",
            Error::InvalidResponse => "Invalid response",
            Error::MismatchID => "Mismatch packet ID",
            Error::InvalidBz2Size => "Invalid Bz2 size",
            Error::CheckSumMismatch => "Decompressed checksum does not match",
            Error::Other(msg) => msg,
        }
    }
}

} // verus!
