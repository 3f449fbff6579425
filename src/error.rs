use vstd::prelude::*;

verus! {

/// Why a buffer could not be read as a geometry.
#[derive(Debug, Clone, Copy, PartialEq, Eq, Structural)]
pub enum DecodeError {
    /// The buffer does not start with a known geometry tag.
    InvalidTag,
    /// The buffer is too short, too long, or its counts and offsets do not
    /// match its length.
    InvalidLayout,
}

/// Why a geometry could not be encoded.
#[derive(Debug, Clone, Copy, PartialEq, Eq, Structural)]
pub enum EncodeError {
    /// A member count or a byte offset would not fit in the format's 32 bits.
    TooLarge,
}

} // verus!
