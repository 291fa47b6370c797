//! Lossless conversion between the cryptosystem's native objects and their
//! printable wire forms.
//!
//! Two independent layerings must compose exactly as stated, for wire
//! compatibility:
//!
//! * a public key set transits as binary-serialize, then printable-encode;
//! * a ciphertext transits as structural-text-serialize, then
//!   printable-encode.
//!
//! The asymmetry (binary inner form for key sets, text inner form for
//! ciphertexts) is part of the protocol and is preserved, not simplified.
//! Decoding peels the printable coat first and the inner form second; the
//! reverse order is never valid.

use vstd::prelude::*;

use threshold_crypto::Ciphertext;
use threshold_crypto::PublicKeySet;

use crate::bindings::b64_decode;
use crate::bindings::b64_encode;
use crate::bindings::b64_of;
use crate::bindings::ct_from_json;
use crate::bindings::ct_json_of;
use crate::bindings::ct_to_json;
use crate::bindings::is_base64_char;
use crate::bindings::pks_bytes_of;
use crate::bindings::pks_from_bytes;
use crate::bindings::pks_to_bytes;
use crate::errors::DecodeStage;
use crate::errors::DeserializationError;

verus! {

/// The wire text of a public key set: its compact binary form under the
/// printable coat.
pub open spec fn encoded_public_key_of(k: PublicKeySet) -> Seq<char> {
    b64_of(pks_bytes_of(k))
}

/// The wire text of a ciphertext: its structural text form under the
/// printable coat.
pub open spec fn encoded_ciphertext_of(c: Ciphertext) -> Seq<char> {
    b64_of(ct_json_of(c))
}

/// Serializes a public key set to its printable wire text.
///
/// The result is base64 text, so it is printable ASCII and safe inside a
/// JSON string field.
pub fn encode_public_key(key_set: &PublicKeySet) -> (r: String)
    ensures
        r@ == encoded_public_key_of(*key_set),
        forall|i: int| 0 <= i < r@.len() ==> is_base64_char(#[trigger] r@[i]),
{
    let bytes = pks_to_bytes(key_set);
    b64_encode(&bytes)
}

/// Decodes the printable wire text of a public key set.
///
/// Round trip: on the output of [`encode_public_key`] this returns `Ok` of
/// an equal key set, for every key set that actually carries key material
/// (its binary form is longer than the bare 8-byte coefficient count).  A
/// string that is not valid base64 is rejected at the printable layer; one
/// whose decoded bytes are not a binary key set, or are one without a
/// single coefficient — a payload no honest service sends, on which the
/// cryptosystem's accessors misbehave — is rejected at the binary layer;
/// no input makes it fail any other way.
pub fn decode_public_key(s: &str) -> (r: Result<PublicKeySet, DeserializationError>)
    ensures
        (exists|k: PublicKeySet| pks_bytes_of(k).len() >= 9 && s@ == encoded_public_key_of(k))
            ==> r is Ok,
        r matches Ok(k2) ==> forall|k: PublicKeySet| s@ == encoded_public_key_of(k) ==> k2 == k,
        r matches Ok(k2) ==> pks_bytes_of(k2).len() >= 9,
        r matches Err(e) ==> (e.stage == DecodeStage::PrintableDecode <==> !(exists|b: Seq<u8>|
            s@ == b64_of(b))),
        r matches Err(e) ==> e.stage != DecodeStage::StructuralParse,
{
    match b64_decode(s) {
        None => Err(DeserializationError { stage: DecodeStage::PrintableDecode }),
        Some(bytes) => match pks_from_bytes(&bytes) {
            None => Err(DeserializationError { stage: DecodeStage::BinaryDecode }),
            Some(key_set) => {
                let canonical = pks_to_bytes(&key_set);
                if canonical.len() < 9 {
                    Err(DeserializationError { stage: DecodeStage::BinaryDecode })
                } else {
                    Ok(key_set)
                }
            },
        },
    }
}

/// Serializes a ciphertext to its printable wire text.
///
/// The result is base64 text, so it is printable ASCII and safe inside a
/// JSON string field.
pub fn encode_ciphertext(ciphertext: &Ciphertext) -> (r: String)
    ensures
        r@ == encoded_ciphertext_of(*ciphertext),
        forall|i: int| 0 <= i < r@.len() ==> is_base64_char(#[trigger] r@[i]),
{
    let bytes = ct_to_json(ciphertext);
    b64_encode(&bytes)
}

/// Decodes the printable wire text of a ciphertext.
///
/// Round trip: on the output of [`encode_ciphertext`] this returns `Ok` of
/// an equal ciphertext.  A string that is not valid base64 is rejected at
/// the printable layer; one whose decoded bytes are not the structural text
/// form of a ciphertext is rejected at the structural layer; no input makes
/// it fail any other way.
pub fn decode_ciphertext(s: &str) -> (r: Result<Ciphertext, DeserializationError>)
    ensures
        (exists|c: Ciphertext| s@ == encoded_ciphertext_of(c)) ==> r is Ok,
        r matches Ok(c2) ==> forall|c: Ciphertext| s@ == encoded_ciphertext_of(c) ==> c2 == c,
        r matches Err(e) ==> (e.stage == DecodeStage::PrintableDecode <==> !(exists|b: Seq<u8>|
            s@ == b64_of(b))),
        r matches Err(e) ==> e.stage != DecodeStage::BinaryDecode,
{
    match b64_decode(s) {
        None => Err(DeserializationError { stage: DecodeStage::PrintableDecode }),
        Some(bytes) => match ct_from_json(&bytes) {
            None => Err(DeserializationError { stage: DecodeStage::StructuralParse }),
            Some(ciphertext) => Ok(ciphertext),
        },
    }
}

} // verus!
