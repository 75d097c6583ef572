//! Error kinds reported by the codec.

use vstd::prelude::*;

verus! {

/// A failure while encoding or decoding a wire message.
///
/// Every decoding function reports a shortage of bytes, an over-long
/// variable-length integer, malformed UTF-8 or an unrecognized opcode
/// through this type; nothing in the codec panics.
#[derive(Clone, Copy, Debug, PartialEq, Eq, Structural)]
pub enum CodecError {
    /// Fewer bytes remain than a fixed-width or length-prefixed read needs.
    Underflow,
    /// A variable-length integer ran past its maximum byte count, or a
    /// string is too long for its length-prefix field.
    Overflow,
    /// Bytes that should hold UTF-8 text do not form a valid encoding.
    InvalidEncoding,
    /// An opcode byte matches no operation known to the protocol.
    Protocol,
}

} // verus!
