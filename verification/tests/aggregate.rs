//! Behaviour of the share-aggregation engine.

use threshold_client::aggregate::combine_shares;
use threshold_client::aggregate::shares_required;
use threshold_client::errors::CombineError;

use threshold_crypto::Ciphertext;
use threshold_crypto::DecryptionShare;
use threshold_crypto::PublicKeySet;
use threshold_crypto::SecretKeySet;

/// A key set requiring `need` distinct shares, a ciphertext of `plaintext`,
/// and one decryption share per participant index `0..participants`.
fn setup(
    need: usize,
    participants: usize,
    plaintext: &[u8],
) -> (PublicKeySet, Ciphertext, Vec<(u64, DecryptionShare)>) {
    let mut rng = rand::thread_rng();
    let sk_set = SecretKeySet::random(need - 1, &mut rng);
    let pk_set = sk_set.public_keys();
    let ciphertext = pk_set.public_key().encrypt(plaintext);
    let shares: Vec<(u64, DecryptionShare)> = (0..participants)
        .map(|i| {
            (
                i as u64,
                sk_set.secret_key_share(i).decrypt_share_no_verify(&ciphertext),
            )
        })
        .collect();
    (pk_set, ciphertext, shares)
}

fn pick(shares: &[(u64, DecryptionShare)], indices: &[usize]) -> Vec<(u64, DecryptionShare)> {
    indices.iter().map(|&i| shares[i].clone()).collect()
}

#[test]
fn shares_required_is_threshold_plus_one() {
    let (pk_set, _, _) = setup(3, 5, b"x");
    assert_eq!(pk_set.threshold(), 2);
    assert_eq!(shares_required(&pk_set), 3);
}

#[test]
fn any_three_of_five_shares_yield_the_same_plaintext() {
    let (pk_set, ciphertext, shares) = setup(3, 5, b"quorum message");
    let subsets: [&[usize]; 4] = [&[0, 1, 2], &[2, 3, 4], &[0, 2, 4], &[4, 1, 3]];
    for indices in subsets {
        let chosen = pick(&shares, indices);
        let plaintext = combine_shares(&pk_set, &ciphertext, &chosen)
            .expect("a full quorum of honest shares must combine");
        assert_eq!(plaintext, "quorum message");
    }
}

#[test]
fn all_five_shares_also_yield_the_plaintext() {
    let (pk_set, ciphertext, shares) = setup(3, 5, b"quorum message");
    let plaintext = combine_shares(&pk_set, &ciphertext, &shares).unwrap();
    assert_eq!(plaintext, "quorum message");
}

#[test]
fn two_shares_against_threshold_three_are_insufficient() {
    let (pk_set, ciphertext, shares) = setup(3, 5, b"secret");
    let chosen = pick(&shares, &[0, 3]);
    let err = combine_shares(&pk_set, &ciphertext, &chosen).unwrap_err();
    assert_eq!(err, CombineError::InsufficientShares { have: 2, need: 3 });
}

#[test]
fn duplicated_index_does_not_count_towards_the_threshold() {
    let (pk_set, ciphertext, shares) = setup(3, 5, b"secret");
    let chosen = pick(&shares, &[0, 1, 1, 1]);
    let err = combine_shares(&pk_set, &ciphertext, &chosen).unwrap_err();
    assert_eq!(err, CombineError::InsufficientShares { have: 2, need: 3 });
}

#[test]
fn no_shares_are_insufficient() {
    let (pk_set, ciphertext, _) = setup(3, 5, b"secret");
    let err = combine_shares(&pk_set, &ciphertext, &Vec::new()).unwrap_err();
    assert_eq!(err, CombineError::InsufficientShares { have: 0, need: 3 });
}

#[test]
fn conflicting_payloads_under_one_index_are_reported() {
    let (pk_set, ciphertext, shares) = setup(3, 5, b"secret");
    let conflicting = vec![
        shares[0].clone(),
        shares[1].clone(),
        (1, shares[2].1.clone()),
        shares[3].clone(),
    ];
    let err = combine_shares(&pk_set, &ciphertext, &conflicting).unwrap_err();
    assert_eq!(err, CombineError::ConflictingShare { index: 1 });
}

#[test]
fn conflict_is_reported_even_with_a_full_quorum_of_honest_shares() {
    let (pk_set, ciphertext, shares) = setup(3, 5, b"secret");
    let conflicting = vec![
        shares[0].clone(),
        shares[1].clone(),
        shares[2].clone(),
        shares[3].clone(),
        (0, shares[4].1.clone()),
    ];
    let err = combine_shares(&pk_set, &ciphertext, &conflicting).unwrap_err();
    assert_eq!(err, CombineError::ConflictingShare { index: 0 });
}

#[test]
fn repeated_identical_shares_are_harmless() {
    let (pk_set, ciphertext, shares) = setup(3, 5, b"agreed");
    let repeated = vec![
        shares[0].clone(),
        shares[0].clone(),
        shares[1].clone(),
        shares[1].clone(),
        shares[2].clone(),
    ];
    let plaintext = combine_shares(&pk_set, &ciphertext, &repeated).unwrap();
    assert_eq!(plaintext, "agreed");
}

#[test]
fn share_order_does_not_change_the_plaintext() {
    let (pk_set, ciphertext, shares) = setup(3, 5, b"agreed");
    let forward = pick(&shares, &[0, 1, 2]);
    let backward = pick(&shares, &[2, 1, 0]);
    let a = combine_shares(&pk_set, &ciphertext, &forward).unwrap();
    let b = combine_shares(&pk_set, &ciphertext, &backward).unwrap();
    assert_eq!(a, b);
}

#[test]
fn plaintext_that_is_not_text_fails_with_encoding_error() {
    let raw: [u8; 4] = [0xff, 0xfe, 0x80, 0x00];
    let (pk_set, ciphertext, shares) = setup(2, 3, &raw);
    let chosen = pick(&shares, &[0, 2]);
    let err = combine_shares(&pk_set, &ciphertext, &chosen).unwrap_err();
    assert_eq!(err, CombineError::Encoding);
}
