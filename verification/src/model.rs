//! The mathematical model of a share collection.
//!
//! A decrypt response is a list of `(participant index, share)` pairs, in no
//! particular order, possibly with repeated indices.  The model maps such a
//! list to the mapping it denotes (`pair_map`), and defines when the list is
//! self-contradictory (`has_conflict`): the aggregation engine's contract is
//! stated over these.

use vstd::prelude::*;

use threshold_crypto::DecryptionShare;

verus! {

/// The participant indices that occur in a share list.
pub open spec fn index_set(s: Seq<(u64, DecryptionShare)>) -> Set<u64> {
    Set::new(|x: u64| exists|i: int| 0 <= i < s.len() && (#[trigger] s[i]).0 == x)
}

/// The mapping from participant index to share payload that a share list
/// denotes: the first payload listed for each index.
pub open spec fn pair_map(s: Seq<(u64, DecryptionShare)>) -> Map<u64, DecryptionShare>
    decreases s.len(),
{
    if s.len() == 0 {
        Map::empty()
    } else {
        let m = pair_map(s.drop_last());
        if m.dom().contains(s.last().0) {
            m
        } else {
            m.insert(s.last().0, s.last().1)
        }
    }
}

/// Two entries of the list disagree: the same index with different payloads.
pub open spec fn conflict_at(s: Seq<(u64, DecryptionShare)>, index: u64) -> bool {
    exists|i: int, j: int|
        0 <= i < j < s.len() && (#[trigger] s[i]).0 == index && (#[trigger] s[j]).0 == index && s[
            i
        ].1 != s[j].1
}

/// Some index occurs with two different payloads.
pub open spec fn has_conflict(s: Seq<(u64, DecryptionShare)>) -> bool {
    exists|index: u64| #[trigger] conflict_at(s, index)
}

/// The participant indices are strictly increasing along the list.
pub open spec fn sorted_strict(s: Seq<(u64, DecryptionShare)>) -> bool {
    forall|i: int, j: int| 0 <= i < j < s.len() ==> (#[trigger] s[i]).0 < (#[trigger] s[j]).0
}

/// No participant index occurs twice.
pub open spec fn distinct_indices(s: Seq<(u64, DecryptionShare)>) -> bool {
    forall|i: int, j: int| 0 <= i < j < s.len() ==> (#[trigger] s[i]).0 != (#[trigger] s[j]).0
}

/// Dropping the last entry keeps every remaining index.
proof fn lemma_index_set_drop_last(s: Seq<(u64, DecryptionShare)>)
    requires
        s.len() > 0,
    ensures
        index_set(s) =~= index_set(s.drop_last()).insert(s.last().0),
{
    assert forall|x: u64| index_set(s).contains(x) implies index_set(s.drop_last()).insert(
        s.last().0,
    ).contains(x) by {
        let i = choose|i: int| 0 <= i < s.len() && (#[trigger] s[i]).0 == x;
        if i < s.len() - 1 {
            assert(s.drop_last()[i] == s[i]);
            assert(index_set(s.drop_last()).contains(x));
        } else {
            assert(s.last() == s[i]);
        }
    }
    assert forall|x: u64| index_set(s.drop_last()).insert(s.last().0).contains(x) implies index_set(
        s,
    ).contains(x) by {
        if x == s.last().0 {
            assert((s[s.len() - 1]).0 == x);
        } else {
            let i = choose|i: int|
                0 <= i < s.drop_last().len() && (#[trigger] s.drop_last()[i]).0 == x;
            assert((s[i]).0 == x);
        }
    }
}

/// The denoted mapping is finite and defined exactly on the listed indices.
pub proof fn lemma_pair_map_dom(s: Seq<(u64, DecryptionShare)>)
    ensures
        pair_map(s).dom().finite(),
        pair_map(s).dom() =~= index_set(s),
    decreases s.len(),
{
    if s.len() == 0 {
        assert(index_set(s) =~= Set::<u64>::empty());
    } else {
        lemma_pair_map_dom(s.drop_last());
        lemma_index_set_drop_last(s);
        assert(pair_map(s).dom() =~= index_set(s.drop_last()).insert(s.last().0));
    }
}

/// A conflict-free prefix of a conflict-free list stays conflict-free.
pub proof fn lemma_no_conflict_drop_last(s: Seq<(u64, DecryptionShare)>)
    requires
        s.len() > 0,
        !has_conflict(s),
    ensures
        !has_conflict(s.drop_last()),
{
    if has_conflict(s.drop_last()) {
        let index = choose|index: u64| #[trigger] conflict_at(s.drop_last(), index);
        let (i, j): (int, int) = choose|i: int, j: int|
            0 <= i < j < s.drop_last().len() && (#[trigger] s.drop_last()[i]).0 == index && (
            #[trigger] s.drop_last()[j]).0 == index && s.drop_last()[i].1 != s.drop_last()[j].1;
        assert((s[i]).0 == index && (s[j]).0 == index && s[i].1 != s[j].1);
        assert(conflict_at(s, index));
    }
}

/// In a conflict-free list, every entry's payload is the one the denoted
/// mapping records for its index.
pub proof fn lemma_pair_map_values(s: Seq<(u64, DecryptionShare)>, i: int)
    requires
        !has_conflict(s),
        0 <= i < s.len(),
    ensures
        pair_map(s).dom().contains(s[i].0),
        pair_map(s)[s[i].0] == s[i].1,
    decreases s.len(),
{
    lemma_pair_map_dom(s);
    assert(index_set(s).contains(s[i].0));
    if i == s.len() - 1 {
        if pair_map(s.drop_last()).dom().contains(s.last().0) {
            lemma_pair_map_dom(s.drop_last());
            let j = choose|j: int|
                0 <= j < s.drop_last().len() && (#[trigger] s.drop_last()[j]).0 == s.last().0;
            assert(s[j] == s.drop_last()[j]);
            if s[j].1 != s[i].1 {
                assert(conflict_at(s, s[i].0));
                assert(false);
            }
            lemma_no_conflict_drop_last(s);
            lemma_pair_map_values(s.drop_last(), j);
        }
    } else {
        lemma_no_conflict_drop_last(s);
        assert(s.drop_last()[i] == s[i]);
        lemma_pair_map_values(s.drop_last(), i);
        if !pair_map(s.drop_last()).dom().contains(s.last().0) {
            assert(s[i].0 != s.last().0) by {
                lemma_pair_map_dom(s.drop_last());
                assert(index_set(s.drop_last()).contains(s[i].0));
            }
        }
    }
}

/// A list with distinct indices has no conflict.
pub proof fn lemma_distinct_no_conflict(s: Seq<(u64, DecryptionShare)>)
    requires
        distinct_indices(s),
    ensures
        !has_conflict(s),
{
    if has_conflict(s) {
        let index = choose|index: u64| #[trigger] conflict_at(s, index);
        let (i, j): (int, int) = choose|i: int, j: int|
            0 <= i < j < s.len() && (#[trigger] s[i]).0 == index && (#[trigger] s[j]).0 == index
                && s[i].1 != s[j].1;
        assert(false);
    }
}

/// Strictly increasing indices are distinct.
pub proof fn lemma_sorted_distinct(s: Seq<(u64, DecryptionShare)>)
    requires
        sorted_strict(s),
    ensures
        distinct_indices(s),
{
}

/// A list with distinct indices lists exactly as many indices as entries.
pub proof fn lemma_distinct_index_count(s: Seq<(u64, DecryptionShare)>)
    requires
        distinct_indices(s),
    ensures
        index_set(s).finite(),
        index_set(s).len() == s.len(),
    decreases s.len(),
{
    if s.len() == 0 {
        assert(index_set(s) =~= Set::<u64>::empty());
    } else {
        assert(distinct_indices(s.drop_last())) by {
            assert forall|i: int, j: int| 0 <= i < j < s.drop_last().len() implies (
            #[trigger] s.drop_last()[i]).0 != (#[trigger] s.drop_last()[j]).0 by {
                assert(s.drop_last()[i] == s[i] && s.drop_last()[j] == s[j]);
            }
        }
        lemma_distinct_index_count(s.drop_last());
        lemma_index_set_drop_last(s);
        if index_set(s.drop_last()).contains(s.last().0) {
            let i = choose|i: int|
                0 <= i < s.drop_last().len() && (#[trigger] s.drop_last()[i]).0 == s.last().0;
            assert((s[i]).0 == (s[s.len() - 1]).0);
            assert(false);
        }
    }
}

/// Appending an entry extends the denoted mapping, unless its index is
/// already present: then the mapping is unchanged, whatever the payload.
pub proof fn lemma_pair_map_push(s: Seq<(u64, DecryptionShare)>, p: (u64, DecryptionShare))
    ensures
        pair_map(s).dom().contains(p.0) ==> pair_map(s.push(p)) == pair_map(s),
        !pair_map(s).dom().contains(p.0) ==> pair_map(s.push(p)) == pair_map(s).insert(p.0, p.1),
{
    assert(s.push(p).drop_last() =~= s);
    assert(s.push(p).last() == p);
}

/// Appending an entry whose payload agrees with the mapping (or whose index
/// is new) cannot create a conflict.
pub proof fn lemma_no_conflict_push_matching(
    s: Seq<(u64, DecryptionShare)>,
    p: (u64, DecryptionShare),
)
    requires
        !has_conflict(s),
        pair_map(s).dom().contains(p.0) ==> pair_map(s)[p.0] == p.1,
    ensures
        !has_conflict(s.push(p)),
{
    if has_conflict(s.push(p)) {
        let index = choose|index: u64| #[trigger] conflict_at(s.push(p), index);
        let (i, j): (int, int) = choose|i: int, j: int|
            0 <= i < j < s.push(p).len() && (#[trigger] s.push(p)[i]).0 == index && (
            #[trigger] s.push(p)[j]).0 == index && s.push(p)[i].1 != s.push(p)[j].1;
        if j < s.len() {
            assert(s[i] == s.push(p)[i] && s[j] == s.push(p)[j]);
            assert(conflict_at(s, index));
        } else {
            assert(s.push(p)[j] == p);
            assert(s[i] == s.push(p)[i]);
            lemma_pair_map_dom(s);
            assert(index_set(s).contains(p.0));
            lemma_pair_map_values(s, i);
            assert(false);
        }
    }
}

/// Appending an entry whose payload disagrees with the mapping's entry for
/// its index creates a conflict at exactly that index.
pub proof fn lemma_conflict_push_conflicting(
    s: Seq<(u64, DecryptionShare)>,
    p: (u64, DecryptionShare),
)
    requires
        !has_conflict(s),
        pair_map(s).dom().contains(p.0),
        pair_map(s)[p.0] != p.1,
    ensures
        conflict_at(s.push(p), p.0),
        has_conflict(s.push(p)),
{
    lemma_pair_map_dom(s);
    let i = choose|i: int| 0 <= i < s.len() && (#[trigger] s[i]).0 == p.0;
    lemma_pair_map_values(s, i);
    assert((s.push(p)[i]).0 == p.0);
    assert((s.push(p)[s.len() as int]).0 == p.0);
    assert(s.push(p)[i].1 != s.push(p)[s.len() as int].1);
    assert(conflict_at(s.push(p), p.0));
}

/// A conflict inside a prefix is a conflict of the whole list.
pub proof fn lemma_conflict_at_take(s: Seq<(u64, DecryptionShare)>, n: int, index: u64)
    requires
        0 <= n <= s.len(),
        conflict_at(s.take(n), index),
    ensures
        conflict_at(s, index),
{
    let (i, j): (int, int) = choose|i: int, j: int|
        0 <= i < j < s.take(n).len() && (#[trigger] s.take(n)[i]).0 == index && (
        #[trigger] s.take(n)[j]).0 == index && s.take(n)[i].1 != s.take(n)[j].1;
    assert((s[i]).0 == index && (s[j]).0 == index && s[i].1 != s[j].1);
    assert(conflict_at(s, index));
}

/// Inserting an entry with a fresh index at its sorted position keeps the
/// indices strictly increasing, extends the denoted mapping by exactly that
/// entry, and adds no other entry.
#[verifier::rlimit(50)]
pub proof fn lemma_sorted_insert(s: Seq<(u64, DecryptionShare)>, j: int, p: (u64, DecryptionShare))
    requires
        sorted_strict(s),
        0 <= j <= s.len(),
        forall|a: int| 0 <= a < j ==> (#[trigger] s[a]).0 < p.0,
        j < s.len() ==> s[j].0 > p.0,
    ensures
        sorted_strict(s.insert(j, p)),
        !index_set(s).contains(p.0),
        pair_map(s.insert(j, p)) == pair_map(s).insert(p.0, p.1),
        forall|a: int|
            0 <= a < s.insert(j, p).len() ==> (#[trigger] s.insert(j, p)[a] == p || exists|b: int|
                0 <= b < s.len() && s[b] == s.insert(j, p)[a]),
{
    s.insert_ensures(j, p);
    let t = s.insert(j, p);
    assert(!index_set(s).contains(p.0)) by {
        if index_set(s).contains(p.0) {
            let a = choose|a: int| 0 <= a < s.len() && (#[trigger] s[a]).0 == p.0;
            if a >= j {
                if a > j {
                    assert(s[j].0 < s[a].0);
                }
            }
            assert(false);
        }
    }
    assert forall|a: int, b: int| 0 <= a < b < t.len() implies (#[trigger] t[a]).0 < (
    #[trigger] t[b]).0 by {
        if a < j && b < j {
            assert(t[a] == s[a] && t[b] == s[b]);
        } else if a < j && b == j {
            assert(t[a] == s[a] && t[b] == p);
        } else if a < j && b > j {
            assert(t[a] == s[a] && t[b] == s[b - 1]);
            assert(a < b - 1);
            assert(s[a].0 < s[b - 1].0);
        } else if a == j {
            assert(t[a] == p && t[b] == s[b - 1]);
            assert(s[j].0 > p.0);
            if b - 1 > j {
                assert(s[j].0 < s[b - 1].0);
            }
        } else {
            assert(t[a] == s[a - 1] && t[b] == s[b - 1]);
        }
    }
    lemma_sorted_distinct(s);
    lemma_sorted_distinct(t);
    assert(distinct_indices(s.push(p))) by {
        assert forall|a: int, b: int| 0 <= a < b < s.push(p).len() implies (
        #[trigger] s.push(p)[a]).0 != (#[trigger] s.push(p)[b]).0 by {
            if b < s.len() {
                assert(s.push(p)[a] == s[a] && s.push(p)[b] == s[b]);
            } else {
                assert(s.push(p)[b] == p && s.push(p)[a] == s[a]);
                assert(index_set(s).contains(s[a].0));
            }
        }
    }
    assert forall|a: int| 0 <= a < t.len() implies exists|b: int|
        0 <= b < s.push(p).len() && s.push(p)[b] == #[trigger] t[a] by {
        if a < j {
            assert(s.push(p)[a] == t[a]);
        } else if a == j {
            assert(s.push(p)[s.len() as int] == t[a]);
        } else {
            assert(s.push(p)[a - 1] == t[a]);
        }
    }
    assert forall|b: int| 0 <= b < s.push(p).len() implies exists|a: int|
        0 <= a < t.len() && t[a] == #[trigger] s.push(p)[b] by {
        if b < j {
            assert(t[b] == s.push(p)[b]);
        } else if b < s.len() {
            assert(t[b + 1] == s.push(p)[b]);
        } else {
            assert(t[j] == s.push(p)[b]);
        }
    }
    lemma_pair_map_same_entries(t, s.push(p));
    lemma_pair_map_dom(s);
    lemma_pair_map_push(s, p);
    assert forall|a: int| 0 <= a < t.len() implies (#[trigger] t[a] == p || exists|b: int|
        0 <= b < s.len() && s[b] == t[a]) by {
        if a < j {
            assert(s[a] == t[a]);
        } else if a > j {
            assert(s[a - 1] == t[a]);
        }
    }
}

/// Two lists with distinct indices and the same entries denote the same
/// mapping, whatever the order of the entries.
pub proof fn lemma_pair_map_same_entries(
    s1: Seq<(u64, DecryptionShare)>,
    s2: Seq<(u64, DecryptionShare)>,
)
    requires
        distinct_indices(s1),
        distinct_indices(s2),
        forall|i: int|
            0 <= i < s1.len() ==> exists|j: int| 0 <= j < s2.len() && s2[j] == #[trigger] s1[i],
        forall|j: int|
            0 <= j < s2.len() ==> exists|i: int| 0 <= i < s1.len() && s1[i] == #[trigger] s2[j],
    ensures
        pair_map(s1) =~= pair_map(s2),
{
    lemma_pair_map_dom(s1);
    lemma_pair_map_dom(s2);
    lemma_distinct_no_conflict(s1);
    lemma_distinct_no_conflict(s2);
    assert forall|x: u64| pair_map(s1).dom().contains(x) implies pair_map(s2).dom().contains(x) by {
        let i = choose|i: int| 0 <= i < s1.len() && (#[trigger] s1[i]).0 == x;
        let j = choose|j: int| 0 <= j < s2.len() && s2[j] == s1[i];
        assert((s2[j]).0 == x);
        assert(index_set(s2).contains(x));
    }
    assert forall|x: u64| pair_map(s2).dom().contains(x) implies pair_map(s1).dom().contains(x) by {
        let j = choose|j: int| 0 <= j < s2.len() && (#[trigger] s2[j]).0 == x;
        let i = choose|i: int| 0 <= i < s1.len() && s1[i] == s2[j];
        assert((s1[i]).0 == x);
        assert(index_set(s1).contains(x));
    }
    assert forall|x: u64| pair_map(s1).dom().contains(x) implies pair_map(s1)[x] == pair_map(
        s2,
    )[x] by {
        let i = choose|i: int| 0 <= i < s1.len() && (#[trigger] s1[i]).0 == x;
        lemma_pair_map_values(s1, i);
        let j = choose|j: int| 0 <= j < s2.len() && s2[j] == s1[i];
        lemma_pair_map_values(s2, j);
    }
}

} // verus!
