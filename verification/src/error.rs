//! The ways in which decoding can fail.

use vstd::prelude::*;

verus! {

/// Why a buffer, or one attribute in it, could not be decoded.
#[derive(Clone, Copy, Debug, PartialEq, Eq, Structural)]
pub enum DecodeError {
    /// An attribute header is cut short, declares fewer bytes than a header
    /// has, or declares more bytes than the buffer still holds.
    TruncatedBuffer,
    /// A fixed-width number was given a payload of another size.
    LengthMismatch { expected: usize, actual: usize },
    /// A hardware address was given a payload that is neither 6 nor 8 bytes.
    InvalidAddressLength { actual: usize },
}

} // verus!
