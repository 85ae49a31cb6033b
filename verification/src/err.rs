//! The error kinds a decode or encode can produce.

use vstd::prelude::*;

verus! {

/// Everything that can go wrong while decoding call data or re-encoding a
/// bundle. Decoding yields the first error met and never a partial value.
#[derive(Clone, Copy, Debug, PartialEq, Eq, Structural)]
pub enum CodecError {
    /// The call data does not begin with the expected selector, or the hex
    /// text is not valid hex.
    InvalidSelector,
    /// Fewer bytes remain than a field requires.
    UnexpectedEnd,
    /// A flag bit outside the set a record declares was set.
    InvalidBoolean,
    /// A union tag outside the declared variants.
    InvalidVariant,
    /// Encode-time: a value does not fit its wire width.
    Overflow,
}

} // verus!
