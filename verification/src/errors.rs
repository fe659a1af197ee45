//! Failure modes of the codec.

use vstd::prelude::*;

verus! {

/// Why a decode, encode or pointer lookup failed.
///
/// `Truncated`, `LabelTooLong` and `InvalidOffset` mark malformed wire data;
/// `Unsupported` marks a feature the codec deliberately does not implement
/// (resource-record decoding, and encoding of a still-compressed name), so
/// that callers can tell a bad packet from a missing feature.
#[derive(Debug, Clone, Copy, PartialEq, Eq, Structural)]
pub enum DnsError {
    /// The buffer ended before a fixed-size field or a label was complete.
    Truncated,
    /// A label length byte exceeded the 63-byte maximum (and was not a pointer).
    LabelTooLong,
    /// A compression-pointer offset did not land on a literal label inside the
    /// question section (it fell in the header, past the questions, inside a
    /// label, on the type/class bytes, or on another pointer).
    InvalidOffset,
    /// The operation reached a deliberately unimplemented path: decoding a
    /// resource record, or encoding a name that still contains a pointer.
    Unsupported,
}

} // verus!
