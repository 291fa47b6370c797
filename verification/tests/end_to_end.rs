//! Whole-protocol scenarios against a simulated service.

use threshold_client::aggregate::combine_shares;
use threshold_client::codec::decode_ciphertext;
use threshold_client::codec::decode_public_key;
use threshold_client::codec::encode_ciphertext;
use threshold_client::codec::encode_public_key;
use threshold_client::errors::CombineError;
use threshold_client::errors::DecodeStage;

use threshold_crypto::DecryptionShare;
use threshold_crypto::SecretKeySet;

/// The service side, holding the secret key shares: it publishes the wire
/// text of its key set, encrypts, and answers a decrypt request with the
/// shares of the given participants.
struct SimulatedService {
    sk_set: SecretKeySet,
}

impl SimulatedService {
    fn new(threshold: usize) -> SimulatedService {
        let mut rng = rand::thread_rng();
        SimulatedService { sk_set: SecretKeySet::random(threshold, &mut rng) }
    }

    fn public_key_field(&self) -> String {
        encode_public_key(&self.sk_set.public_keys())
    }

    fn encrypt_field(&self, plaintext: &str) -> String {
        let ciphertext = self.sk_set.public_keys().public_key().encrypt(plaintext.as_bytes());
        encode_ciphertext(&ciphertext)
    }

    fn decryption_shares(
        &self,
        ciphertext_field: &str,
        participants: &[u64],
    ) -> Vec<(u64, DecryptionShare)> {
        let ciphertext = decode_ciphertext(ciphertext_field).expect("service sends valid wire text");
        participants
            .iter()
            .map(|&i| {
                (i, self.sk_set.secret_key_share(i as usize).decrypt_share_no_verify(&ciphertext))
            })
            .collect()
    }
}

#[test]
fn hello_world_with_three_of_five_shares() {
    // threshold 3 of 5: any 3 distinct shares reconstruct
    let service = SimulatedService::new(2);
    let ciphertext_field = service.encrypt_field("hello world");
    for participants in [[0u64, 1, 2], [1, 3, 4], [0, 2, 4]] {
        let key_set = decode_public_key(&service.public_key_field()).expect("valid key set");
        let ciphertext = decode_ciphertext(&ciphertext_field).expect("valid ciphertext");
        let shares = service.decryption_shares(&ciphertext_field, &participants);
        let plaintext = combine_shares(&key_set, &ciphertext, &shares).expect("quorum reached");
        assert_eq!(plaintext, "hello world");
    }
}

#[test]
fn malformed_base64_in_decrypt_response_is_a_printable_decode_error() {
    let err = decode_ciphertext("%%definitely-not-base64%%").unwrap_err();
    assert_eq!(err.stage, DecodeStage::PrintableDecode);
}

#[test]
fn two_shares_against_a_threshold_three_key_are_insufficient() {
    let service = SimulatedService::new(2);
    let ciphertext_field = service.encrypt_field("hello world");
    let key_set = decode_public_key(&service.public_key_field()).unwrap();
    let ciphertext = decode_ciphertext(&ciphertext_field).unwrap();
    let shares = service.decryption_shares(&ciphertext_field, &[0, 1]);
    let err = combine_shares(&key_set, &ciphertext, &shares).unwrap_err();
    assert_eq!(err, CombineError::InsufficientShares { have: 2, need: 3 });
}
