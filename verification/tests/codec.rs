//! Round trips and failure stages of the wire codec.

use threshold_client::codec::decode_ciphertext;
use threshold_client::codec::decode_public_key;
use threshold_client::codec::encode_ciphertext;
use threshold_client::codec::encode_public_key;
use threshold_client::errors::DecodeStage;

use base64::Engine;
use threshold_crypto::SecretKeySet;

#[test]
fn round_trip_public_key() {
    let mut rng = rand::thread_rng();
    let sk_set = SecretKeySet::random(2, &mut rng);
    let pk_set = sk_set.public_keys();
    let wire = encode_public_key(&pk_set);
    let back = decode_public_key(&wire).expect("canonical wire text must decode");
    assert_eq!(back, pk_set);
}

#[test]
fn round_trip_ciphertext() {
    let mut rng = rand::thread_rng();
    let sk_set = SecretKeySet::random(1, &mut rng);
    let pk_set = sk_set.public_keys();
    let ciphertext = pk_set.public_key().encrypt(b"attack at dawn");
    let wire = encode_ciphertext(&ciphertext);
    let back = decode_ciphertext(&wire).expect("canonical wire text must decode");
    assert_eq!(back, ciphertext);
}

#[test]
fn encoded_text_is_printable_ascii() {
    let mut rng = rand::thread_rng();
    let sk_set = SecretKeySet::random(2, &mut rng);
    let pk_set = sk_set.public_keys();
    let ciphertext = pk_set.public_key().encrypt(b"payload");
    for wire in [encode_public_key(&pk_set), encode_ciphertext(&ciphertext)] {
        assert!(!wire.is_empty());
        for c in wire.chars() {
            assert!(c.is_ascii_alphanumeric() || c == '+' || c == '/' || c == '=');
        }
    }
}

#[test]
fn malformed_base64_public_key_fails_at_printable_layer() {
    let err = decode_public_key("not printable ??").unwrap_err();
    assert_eq!(err.stage, DecodeStage::PrintableDecode);
}

#[test]
fn malformed_base64_ciphertext_fails_at_printable_layer() {
    let err = decode_ciphertext("@@@ not base64 @@@").unwrap_err();
    assert_eq!(err.stage, DecodeStage::PrintableDecode);
}

#[test]
fn non_canonical_padding_fails_at_printable_layer() {
    let err = decode_ciphertext("QUJD=A").unwrap_err();
    assert_eq!(err.stage, DecodeStage::PrintableDecode);
}

#[test]
fn truncated_binary_public_key_fails_at_binary_layer() {
    let mut rng = rand::thread_rng();
    let sk_set = SecretKeySet::random(2, &mut rng);
    let pk_set = sk_set.public_keys();
    let wire = encode_public_key(&pk_set);
    let engine = base64::engine::general_purpose::STANDARD;
    let mut bytes = engine.decode(&wire).expect("our own output is valid base64");
    bytes.truncate(bytes.len() / 2);
    let truncated_wire = engine.encode(&bytes);
    let err = decode_public_key(&truncated_wire).unwrap_err();
    assert_eq!(err.stage, DecodeStage::BinaryDecode);
}

#[test]
fn garbage_bytes_ciphertext_fails_at_structural_layer() {
    let engine = base64::engine::general_purpose::STANDARD;
    let wire = engine.encode(b"certainly not a ciphertext");
    let err = decode_ciphertext(&wire).unwrap_err();
    assert_eq!(err.stage, DecodeStage::StructuralParse);
}

#[test]
fn reversed_layer_order_fails_rather_than_succeeding() {
    // the inner text serialization fed in without its printable coat must be
    // rejected at the printable layer, never parsed
    let mut rng = rand::thread_rng();
    let sk_set = SecretKeySet::random(1, &mut rng);
    let ciphertext = sk_set.public_keys().public_key().encrypt(b"x");
    let inner = serde_json::to_string(&ciphertext).expect("ciphertexts serialize");
    let err = decode_ciphertext(&inner).unwrap_err();
    assert_eq!(err.stage, DecodeStage::PrintableDecode);
}

#[test]
fn key_set_without_coefficients_is_rejected_at_binary_layer() {
    // eight zero bytes spell a key set whose commitment holds no
    // coefficient: no honest service sends one, and accepting it would let
    // later threshold queries misbehave
    let engine = base64::engine::general_purpose::STANDARD;
    let wire = engine.encode([0u8; 8]);
    let err = decode_public_key(&wire).unwrap_err();
    assert_eq!(err.stage, DecodeStage::BinaryDecode);
}
