use vstd::prelude::*;

verus! {

/// Errors reported by the library's caller-facing operations.
#[derive(Clone, Copy, Debug, PartialEq, Eq, Structural)]
pub enum AudioError {
    /// An argument is outside the range the operation accepts
    /// (a non-positive downsample factor, a negative buffer padding).
    InvalidArgument,
    /// A port index is not a valid index into the enumeration snapshot.
    OutOfRange,
    /// The input capability was already consumed by an earlier connection.
    InvalidState,
    /// The negotiated or decoded configuration cannot be handled
    /// (zero channels, a sample width beyond 32 bits).
    UnsupportedConfig,
    /// PCM data could not be decoded.
    DecodeFailed,
}

} // verus!
