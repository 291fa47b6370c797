//! The share-aggregation engine.
//!
//! Given a public key set, a ciphertext, and the share list of a decrypt
//! response, [`combine_shares`] reconstructs the plaintext without trusting
//! the list to be well-formed: it deduplicates by participant index,
//! reports two different payloads under one index as a conflict, checks
//! threshold sufficiency before invoking the cryptosystem, and decodes the
//! combined bytes as text.

use vstd::prelude::*;

use threshold_crypto::Ciphertext;
use threshold_crypto::DecryptionShare;
use threshold_crypto::PublicKeySet;
use vstd::utf8::decode_utf8;
use vstd::utf8::valid_utf8;

use crate::bindings::bytes_to_string;
use crate::bindings::combined_bytes;
use crate::bindings::pks_bytes_of;
use crate::bindings::pks_decrypt;
use crate::bindings::pks_threshold;
use crate::bindings::share_clone;
use crate::bindings::share_eq;
use crate::bindings::threshold_of;
use crate::errors::CombineError;
use crate::model::conflict_at;
use crate::model::has_conflict;
use crate::model::lemma_conflict_at_take;
use crate::model::lemma_conflict_push_conflicting;
use crate::model::lemma_distinct_index_count;
use crate::model::lemma_distinct_no_conflict;
use crate::model::lemma_no_conflict_push_matching;
use crate::model::lemma_pair_map_dom;
use crate::model::lemma_pair_map_push;
use crate::model::lemma_pair_map_values;
use crate::model::lemma_sorted_distinct;
use crate::model::lemma_sorted_insert;
use crate::model::pair_map;
use crate::model::sorted_strict;

verus! {

/// The outcome of aggregation on a conflict-free share list, as a function
/// of the mapping the list denotes: too few distinct indices fail with the
/// exact counts; otherwise the combined bytes are decoded as text, and
/// bytes that are not text fail with an encoding error.
pub open spec fn combine_outcome(
    k: PublicKeySet,
    c: Ciphertext,
    s: Seq<(u64, DecryptionShare)>,
) -> Result<Seq<char>, CombineError> {
    let m = pair_map(s);
    if m.dom().len() < threshold_of(k) + 1 {
        Err(
            CombineError::InsufficientShares {
                have: m.dom().len() as usize,
                need: (threshold_of(k) + 1) as usize,
            },
        )
    } else if valid_utf8(combined_bytes(k, c, m)) {
        Ok(decode_utf8(combined_bytes(k, c, m)))
    } else {
        Err(CombineError::Encoding)
    }
}

/// The result of [`combine_shares`], with the plaintext abstracted to its
/// characters.
pub open spec fn outcome_view(r: Result<String, CombineError>) -> Result<Seq<char>, CombineError> {
    match r {
        Ok(s) => Ok(s@),
        Err(e) => Err(e),
    }
}

/// Whether a result reports conflicting shares.
pub open spec fn is_conflict_error(r: Result<String, CombineError>) -> bool {
    match r {
        Err(CombineError::ConflictingShare { .. }) => true,
        _ => false,
    }
}

/// The aggregation outcome of a conflict-free share list depends only on
/// the mapping the list denotes: the order of the entries, and entries
/// repeated under an already-listed index, never change the result.
pub proof fn lemma_outcome_depends_only_on_mapping(
    k: PublicKeySet,
    c: Ciphertext,
    s1: Seq<(u64, DecryptionShare)>,
    s2: Seq<(u64, DecryptionShare)>,
)
    requires
        pair_map(s1) == pair_map(s2),
    ensures
        combine_outcome(k, c, s1) == combine_outcome(k, c, s2),
{
}

/// An entry repeated under an already-listed index leaves the denoted
/// mapping unchanged, whatever its payload: the engine never silently picks
/// one of two payloads, it reports the conflict instead.
pub proof fn lemma_repeated_index_keeps_mapping(
    s: Seq<(u64, DecryptionShare)>,
    p: (u64, DecryptionShare),
)
    requires
        pair_map(s).dom().contains(p.0),
    ensures
        pair_map(s.push(p)) == pair_map(s),
{
    lemma_pair_map_push(s, p);
}

/// The number of distinct shares a key set requires: its threshold plus
/// one.
///
/// The key set must carry key material, as every one that
/// [`crate::codec::decode_public_key`] returns does: the cryptosystem's
/// threshold accessor misbehaves on a key set without coefficients.
pub fn shares_required(key_set: &PublicKeySet) -> (r: usize)
    requires
        pks_bytes_of(*key_set).len() >= 9,
    ensures
        r == threshold_of(*key_set) + 1,
{
    let t = pks_threshold(key_set);
    t + 1
}

/// Reconstructs plaintext from a ciphertext, a public key set, and the
/// share list of a decrypt response.
///
/// The list is deduplicated by participant index first; one index with two
/// different payloads is a conflict and is reported, never resolved by
/// picking a payload.  A conflict-free list is then aggregated: fewer
/// distinct indices than the key set's threshold requires fail with the
/// exact counts before the cryptosystem is ever invoked; a primitive-level
/// rejection would be reported as a combination error; combined bytes that
/// are not valid text fail with an encoding error, distinct from every
/// share-level failure.
///
/// The key set must carry key material, as every one that
/// [`crate::codec::decode_public_key`] returns does: the cryptosystem's
/// accessors misbehave on a key set without coefficients.
pub fn combine_shares(
    key_set: &PublicKeySet,
    ciphertext: &Ciphertext,
    shares: &Vec<(u64, DecryptionShare)>,
) -> (r: Result<String, CombineError>)
    requires
        pks_bytes_of(*key_set).len() >= 9,
    ensures
        is_conflict_error(r) <==> has_conflict(shares@),
        r matches Err(CombineError::ConflictingShare { index }) ==> conflict_at(shares@, index),
        !has_conflict(shares@) ==> outcome_view(r) == combine_outcome(
            *key_set,
            *ciphertext,
            shares@,
        ),
{
    let n = shares.len();
    let mut acc: Vec<(u64, DecryptionShare)> = Vec::new();
    let mut i: usize = 0;
    while i < n
        invariant
            n == shares@.len(),
            i <= n,
            sorted_strict(acc@),
            pair_map(acc@) == pair_map(shares@.take(i as int)),
            !has_conflict(shares@.take(i as int)),
            forall|a: int|
                0 <= a < acc@.len() ==> exists|b: int|
                    0 <= b < i && shares@[b] == #[trigger] acc@[a],
        decreases n - i,
    {
        let index = shares[i].0;
        let ghost prefix = shares@.take(i as int);
        let ghost p = shares@[i as int];
        let mut j: usize = 0;
        while j < acc.len() && acc[j].0 < index
            invariant
                j <= acc@.len(),
                forall|a: int| 0 <= a < j ==> (#[trigger] acc@[a]).0 < index,
            decreases acc@.len() - j,
        {
            j += 1;
        }
        if j < acc.len() && acc[j].0 == index {
            proof {
                lemma_sorted_distinct(acc@);
                lemma_distinct_no_conflict(acc@);
                lemma_pair_map_values(acc@, j as int);
                assert(pair_map(prefix).dom().contains(p.0));
                assert(pair_map(prefix)[p.0] == acc@[j as int].1);
            }
            if share_eq(&acc[j].1, &shares[i].1) {
                proof {
                    lemma_no_conflict_push_matching(prefix, p);
                    lemma_pair_map_push(prefix, p);
                    assert(shares@.take(i + 1 as int) =~= prefix.push(p));
                }
            } else {
                proof {
                    lemma_conflict_push_conflicting(prefix, p);
                    assert(shares@.take(i + 1 as int) =~= prefix.push(p));
                    lemma_conflict_at_take(shares@, i + 1 as int, p.0);
                    assert(has_conflict(shares@));
                }
                return Err(CombineError::ConflictingShare { index });
            }
        } else {
            let share = share_clone(&shares[i].1);
            let ghost old_acc = acc@;
            acc.insert(j, (index, share));
            proof {
                lemma_sorted_insert(old_acc, j as int, p);
                assert(acc@ == old_acc.insert(j as int, p));
                lemma_pair_map_dom(old_acc);
                lemma_pair_map_push(prefix, p);
                assert(pair_map(acc@) == pair_map(prefix.push(p)));
                lemma_no_conflict_push_matching(prefix, p);
                assert(shares@.take(i + 1 as int) =~= prefix.push(p));
                // every accumulated entry still comes from the prefix read so far
                assert forall|a: int| 0 <= a < acc@.len() implies exists|b: int|
                    0 <= b < i + 1 && shares@[b] == #[trigger] acc@[a] by {
                    if acc@[a] == p {
                        assert(shares@[i as int] == acc@[a]);
                    } else {
                        let a0 = choose|a0: int| 0 <= a0 < old_acc.len() && old_acc[a0] == acc@[a];
                        let b = choose|b: int| 0 <= b < i && shares@[b] == old_acc[a0];
                        assert(shares@[b] == acc@[a]);
                    }
                }
            }
        }
        i += 1;
    }
    proof {
        assert(shares@.take(n as int) =~= shares@);
    }
    let t = pks_threshold(key_set);
    let need = t + 1;
    let have = acc.len();
    proof {
        lemma_sorted_distinct(acc@);
        lemma_distinct_index_count(acc@);
        lemma_pair_map_dom(acc@);
        assert(pair_map(shares@).dom().len() == acc@.len());
    }
    if have < need {
        return Err(CombineError::InsufficientShares { have, need });
    }
    match pks_decrypt(key_set, &acc, ciphertext) {
        None => Err(CombineError::Combination),
        Some(bytes) => match bytes_to_string(bytes) {
            None => Err(CombineError::Encoding),
            Some(text) => Ok(text),
        },
    }
}

} // verus!
