use vstd::prelude::*;

verus! {

/// Why text could not be decoded.
#[derive(Debug, Clone, Copy, PartialEq, Eq, Structural)]
pub enum CodecError {
    /// The text does not denote a field element.
    MalformedHex,
    /// A packed signature is not exactly 130 characters long.
    InvalidLength,
}

} // verus!
