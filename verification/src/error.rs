//! Error kinds shared by every codec operation.

use vstd::prelude::*;

verus! {

/// Everything that can go wrong while decoding or encoding a TLV unit.
///
/// A failure at any nested field or element aborts the surrounding decode
/// and propagates the innermost kind unchanged.
#[derive(Clone, Copy, Debug, PartialEq, Eq, Structural)]
pub enum Error {
    /// Truncated or invalid tag or length encoding.
    MalformedHeader,
    /// The decoded tag differs from the expected one.
    UnexpectedTag,
    /// The decoded class differs from the expected one.
    UnexpectedClass,
    /// A constructed unit was expected but a primitive one was found.
    ConstructedExpected,
    /// A canonical-form violation: indefinite length, or a non-minimal tag
    /// or length encoding.
    NotCanonical,
    /// The declared length exceeds the remaining input.
    TruncatedInput,
    /// Content bytes that cannot represent any value of the target type.
    InvalidValueEncoding,
    /// A length that cannot be computed or represented.
    InvalidLength,
}

} // verus!
