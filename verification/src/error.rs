//! The closed error taxonomy of the library.

use vstd::prelude::*;

verus! {

/// Everything that can go wrong while validating a fiscal identifier.
///
/// Errors are plain data: each variant carries either the offending text or
/// the two digits that disagreed, so a caller can inspect and present them.
#[derive(Debug, PartialEq, Eq)]
pub enum Error {
    /// The kind segment is not one of the six recognized letters; holds the
    /// segment as it was given.
    InvalidRifKind(String),
    /// The payer-id segment is not a valid non-negative integer; holds a
    /// description of the numeric defect.
    InvalidRifIdentifier(String),
    /// The string does not split into the three expected dash-separated
    /// segments; holds a message naming the expected shape and the input.
    InvalidRif(String),
    /// The input was well formed but its check digit is wrong: the first
    /// field is the expected digit, the second the one received.
    UnexpectedCheckNum(u8, u8),
    /// The check-digit segment is not a small decimal number; holds the
    /// segment as it was given.
    InvalidCheckNum(String),
}

/// Two errors are alike when they are the same variant with the same
/// content, string payloads compared character by character.
pub open spec fn error_equiv(a: Error, b: Error) -> bool {
    match (a, b) {
        (Error::InvalidRifKind(x), Error::InvalidRifKind(y)) => x@ == y@,
        (Error::InvalidRifIdentifier(x), Error::InvalidRifIdentifier(y)) => x@ == y@,
        (Error::InvalidRif(x), Error::InvalidRif(y)) => x@ == y@,
        (Error::UnexpectedCheckNum(e1, a1), Error::UnexpectedCheckNum(e2, a2)) => e1 == e2
            && a1 == a2,
        (Error::InvalidCheckNum(x), Error::InvalidCheckNum(y)) => x@ == y@,
        _ => false,
    }
}

} // verus!
