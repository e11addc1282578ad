//! Typed errors reported by the codec when a buffer cannot be decoded.

use vstd::prelude::*;

verus! {

/// Why a buffer failed to decode.
///
/// Every codec operation returns a typed result; adversarial or truncated
/// input always yields one of these values, never a panic.
#[derive(Debug, Clone, PartialEq, Eq)]
pub enum DeserializationError {
    /// A fixed-width code does not match any known enumeration value;
    /// the payload names the offending field.
    MalformedField(&'static str),
    /// The buffer is shorter than a field requires.
    UnexpectedEOF,
    /// A compression pointer targets an offset at or beyond its own position.
    InvalidCompressionPointer,
    /// A chain of compression pointers exceeds the recursion limit.
    CompressionTooDeep,
}

} // verus!
