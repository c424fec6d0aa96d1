//! The ways decoding can fail.
use vstd::prelude::*;

verus! {

/// Why a byte buffer could not be decoded.
#[derive(Clone, Copy, Debug, PartialEq, Eq, Structural)]
pub enum PacketError {
    /// The buffer is shorter than a header.
    InsufficientBytes,
    /// The bytes after the header are not as many as the header declares.
    PayloadSizeMismatch,
}

} // verus!
