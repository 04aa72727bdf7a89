//! The ways in which decoding a container fails.
use vstd::prelude::*;

verus! {

/// Why a container could not be decoded. Every failure is fatal to the whole
/// container: no sprite of it is returned.
#[derive(Debug, Clone, Copy, PartialEq, Eq, Structural)]
pub enum Error {
    /// The buffer is shorter than the identifier, or starts with other text.
    MissingIdentifier,
    /// The first bytes of the buffer are not valid UTF-8 text.
    InvalidIdentifierEncoding,
    /// A read ran past the end of the buffer.
    Truncated,
    /// An opcode byte other than `0x00` to `0x03`; holds the byte's position.
    UnknownOpcode(u64),
    /// A paint run addressed bytes outside the sprite's canvas; holds the
    /// position of the paint opcode.
    PaintOutOfBounds(u64),
}

} // verus!
