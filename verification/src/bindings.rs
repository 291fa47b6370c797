//! Trusted bindings to the outside crates the protocol rests on.
//!
//! The cryptosystem's native objects are opaque here; each function below
//! makes exactly one outside call, and its contract states what that call's
//! own source shows.  Results that would take pages to state (a binary
//! serialization, a combined plaintext) are given names: uninterpreted spec
//! functions of the call's arguments alone.

use vstd::prelude::*;

use base64::Engine;
use threshold_crypto::Ciphertext;
use threshold_crypto::DecryptionShare;
use threshold_crypto::PublicKeySet;

use crate::model::pair_map;
use crate::model::sorted_strict;

verus! {

// ------------------------------------------------------------------
// The cryptosystem's native types, declared so they can stand in
// signatures and fields.  Their insides stay invisible to the verifier.
// ------------------------------------------------------------------

#[verifier::external_type_specification]
#[verifier::external_body]
pub struct ExPublicKeySet(PublicKeySet);

#[verifier::external_type_specification]
#[verifier::external_body]
pub struct ExCiphertext(Ciphertext);

#[verifier::external_type_specification]
#[verifier::external_body]
pub struct ExDecryptionShare(DecryptionShare);

// ------------------------------------------------------------------
// The printable (base64) coat.
// ------------------------------------------------------------------

/// The canonical padded base64 text of a byte sequence.
pub uninterp spec fn b64_of(b: Seq<u8>) -> Seq<char>;

/// A character of the standard base64 alphabet, or the padding character.
/// All of them are printable ASCII, so base64 text is safe inside a JSON
/// string field.
pub open spec fn is_base64_char(c: char) -> bool {
    let u = c as u32;
    ('A' as u32 <= u && u <= 'Z' as u32) || ('a' as u32 <= u && u <= 'z' as u32) || ('0' as u32
        <= u && u <= '9' as u32) || u == '+' as u32 || u == '/' as u32 || u == '=' as u32
}

/// Relies on `base64`'s `STANDARD` engine: `encode` emits the canonical
/// padded base64 text of the bytes, over the standard alphabet plus `=`.
#[verifier::external_body]
pub(crate) fn b64_encode(b: &Vec<u8>) -> (r: String)
    ensures
        r@ == b64_of(b@),
        forall|i: int| 0 <= i < r@.len() ==> is_base64_char(#[trigger] r@[i]),
{
    base64::engine::general_purpose::STANDARD.encode(b)
}

/// Relies on `base64`'s `STANDARD` engine: with canonical padding required
/// and trailing bits rejected, `decode` accepts exactly the strings that
/// `encode` produces, and returns the bytes that were encoded.
#[verifier::external_body]
pub(crate) fn b64_decode(s: &str) -> (r: Option<Vec<u8>>)
    ensures
        r is Some <==> exists|b: Seq<u8>| s@ == b64_of(b),
        r matches Some(v) ==> forall|b: Seq<u8>| s@ == b64_of(b) ==> v@ == b,
{
    base64::engine::general_purpose::STANDARD.decode(s).ok()
}

// ------------------------------------------------------------------
// The public key set's compact binary form.
// ------------------------------------------------------------------

/// The compact binary serialization of a public key set.
pub uninterp spec fn pks_bytes_of(k: PublicKeySet) -> Seq<u8>;

/// Relies on `bincode::serialize`: it writes length-prefixed tuples of
/// compressed group-element bytes into a fresh vector, which cannot fail
/// for a `PublicKeySet`.
#[verifier::external_body]
pub(crate) fn pks_to_bytes(k: &PublicKeySet) -> (r: Vec<u8>)
    ensures
        r@ == pks_bytes_of(*k),
{
    bincode::serialize(k).expect("binary serialization of a public key set cannot fail")
}

/// Relies on `bincode::deserialize`: reading back the bytes that
/// `bincode::serialize` produced yields an equal `PublicKeySet`, and such
/// bytes are never rejected.
#[verifier::external_body]
pub(crate) fn pks_from_bytes(b: &Vec<u8>) -> (r: Option<PublicKeySet>)
    ensures
        (exists|k: PublicKeySet| b@ == pks_bytes_of(k)) ==> r is Some,
        r matches Some(k2) ==> forall|k: PublicKeySet| b@ == pks_bytes_of(k) ==> k2 == k,
{
    bincode::deserialize(b).ok()
}

// ------------------------------------------------------------------
// The ciphertext's structural text form.
// ------------------------------------------------------------------

/// The structural text serialization (JSON) of a ciphertext, as bytes.
pub uninterp spec fn ct_json_of(c: Ciphertext) -> Seq<u8>;

/// Relies on `serde_json::to_vec`: a `Ciphertext` serializes as a JSON
/// array holding its compressed group elements and its payload bytes;
/// writing it into a fresh vector cannot fail.
#[verifier::external_body]
pub(crate) fn ct_to_json(c: &Ciphertext) -> (r: Vec<u8>)
    ensures
        r@ == ct_json_of(*c),
{
    serde_json::to_vec(c).expect("text serialization of a ciphertext cannot fail")
}

/// Relies on `serde_json::from_slice`: parsing back the bytes that
/// `serde_json::to_vec` produced yields an equal `Ciphertext`, and such
/// bytes are never rejected.
#[verifier::external_body]
pub(crate) fn ct_from_json(b: &Vec<u8>) -> (r: Option<Ciphertext>)
    ensures
        (exists|c: Ciphertext| b@ == ct_json_of(c)) ==> r is Some,
        r matches Some(c2) ==> forall|c: Ciphertext| b@ == ct_json_of(c) ==> c2 == c,
{
    serde_json::from_slice(b).ok()
}

// ------------------------------------------------------------------
// The cryptosystem's own operations.
// ------------------------------------------------------------------

/// The key set's threshold `t`: combining requires `t + 1` distinct shares.
pub uninterp spec fn threshold_of(k: PublicKeySet) -> usize;

/// Relies on `PublicKeySet::threshold`: one less than the number of
/// committed coefficients.  The binary form is an 8-byte coefficient count
/// followed by 48 bytes per coefficient, so a form longer than 8 bytes
/// means at least one coefficient: the subtraction then neither underflows
/// nor reaches `usize::MAX`.  A key set decoded from a payload with no
/// coefficients would make this call misbehave, so such a value is ruled
/// out; [`crate::codec::decode_public_key`] never returns one.
#[verifier::external_body]
pub(crate) fn pks_threshold(k: &PublicKeySet) -> (r: usize)
    requires
        pks_bytes_of(*k).len() >= 9,
    ensures
        r == threshold_of(*k) && r < usize::MAX,
{
    k.threshold()
}

/// The plaintext bytes that the cryptosystem's combination procedure
/// produces from a key set, a ciphertext, and a mapping from participant
/// index to decryption share.
pub uninterp spec fn combined_bytes(
    k: PublicKeySet,
    c: Ciphertext,
    m: Map<u64, DecryptionShare>,
) -> Seq<u8>;

/// Relies on `PublicKeySet::decrypt`: Lagrange interpolation over the first
/// `threshold + 1` shares handed to it, then an XOR against the
/// ciphertext's payload.  It fails exactly when fewer shares arrive:
/// distinct `u64` indices map to distinct field elements, so no
/// interpolation denominator vanishes.  The computation is a pure function
/// of its arguments, and a strictly index-sorted vector is determined by
/// its index-to-share map, so the result is stated over that map.  Like
/// [`pks_threshold`], the call reads the committed polynomial's degree, so
/// a key set whose binary form holds no coefficient is ruled out.
#[verifier::external_body]
pub(crate) fn pks_decrypt(
    k: &PublicKeySet,
    shares: &Vec<(u64, DecryptionShare)>,
    c: &Ciphertext,
) -> (r: Option<Vec<u8>>)
    requires
        pks_bytes_of(*k).len() >= 9,
        sorted_strict(shares@),
    ensures
        r is Some <==> shares@.len() > threshold_of(*k),
        r matches Some(v) ==> v@ == combined_bytes(*k, *c, pair_map(shares@)),
{
    k.decrypt(shares.iter().map(|(i, s)| (*i, s)), c).ok()
}

/// Relies on `DecryptionShare`'s `PartialEq`: projective group-element
/// equality, an equality test on the abstract value.
#[verifier::external_body]
pub(crate) fn share_eq(a: &DecryptionShare, b: &DecryptionShare) -> (r: bool)
    ensures
        r == (a == b),
{
    a == b
}

/// Relies on `DecryptionShare`'s `Clone`: a field-for-field copy of the
/// group element, equal to the original.
#[verifier::external_body]
pub(crate) fn share_clone(a: &DecryptionShare) -> (r: DecryptionShare)
    ensures
        r == *a,
{
    a.clone()
}

/// Relies on `String::from_utf8` (std): it succeeds exactly on valid UTF-8
/// input and returns the string those bytes spell.
#[verifier::external_body]
pub(crate) fn bytes_to_string(b: Vec<u8>) -> (r: Option<String>)
    ensures
        r is Some <==> vstd::utf8::valid_utf8(b@),
        r matches Some(s) ==> s@ == vstd::utf8::decode_utf8(b@),
{
    String::from_utf8(b).ok()
}

} // verus!
