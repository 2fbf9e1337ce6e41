use vstd::prelude::*;

verus! {

/// Why a save, or a part of one, could not be read.
#[derive(Clone, Copy, Debug, PartialEq, Eq, Structural)]
pub enum ParseError {
    /// The input ended in the middle of a field.
    UnexpectedEnd,
    /// A world-properties segment has no `=`.
    MalformedProperty,
    /// A required world property is absent.
    MissingProperty,
    /// A visibility byte or token is not one of the known ones.
    UnknownVisibility,
    /// An object tag other than 0 (component) or 1 (entity).
    UnknownObjectTag(i32),
    /// The play time is negative.
    NegativeDuration,
    /// A compressed chunk could not be inflated.
    InflateError,
    /// A chunk frame header is unusable (its compressed length is negative).
    IoError,
}

} // verus!
