//! The error taxonomy of the protocol.
//!
//! Every failure is terminal for the current operation and is never downgraded
//! to a default value.  Wire-decoding failures carry the layer that rejected
//! the input, so a caller can tell transport corruption from a malformed
//! protocol object; aggregation failures distinguish conflicting shares,
//! too few shares, a rejected combination, and undecodable plaintext.

use vstd::prelude::*;

verus! {

/// The decoding layer that rejected a wire string.
///
/// Wire artifacts are layered: a printable (base64) outer coat, then either a
/// structural text form (ciphertexts) or a compact binary form (public key
/// sets).  Decoding peels the layers in that order and reports the first one
/// that fails.
#[derive(Clone, Copy, Debug, PartialEq, Eq)]
pub enum DecodeStage {
    /// The printable outer coat is not valid base64.
    PrintableDecode,
    /// The decoded bytes are not the structural text form of the object.
    StructuralParse,
    /// The decoded bytes are not the binary form of the object.
    BinaryDecode,
}

/// Malformed wire data: decoding failed at the given layer.
#[derive(Clone, Copy, Debug, PartialEq, Eq)]
pub struct DeserializationError {
    /// The first layer that rejected the input.
    pub stage: DecodeStage,
}

/// A failure of share aggregation.
#[derive(Clone, Copy, Debug, PartialEq, Eq)]
pub enum CombineError {
    /// Two shares carried the same participant index but different payloads;
    /// neither is silently picked.
    ConflictingShare {
        /// A participant index that appears with two different payloads.
        index: u64,
    },
    /// Fewer distinct participant indices than the key set's threshold
    /// requires.
    InsufficientShares {
        /// The number of distinct participant indices supplied.
        have: usize,
        /// The number of distinct shares the key set requires.
        need: usize,
    },
    /// The cryptographic primitive rejected the combination.
    Combination,
    /// The combined bytes are not valid text.
    Encoding,
}

} // verus!
