//! Keeping a sequence ordered by a time key, with ties in order of arrival.

use vstd::prelude::*;

verus! {

/// The keys never go down from left to right.
pub open spec fn ascending(keys: Seq<u64>) -> bool {
    forall|i: int, j: int| 0 <= i <= j < keys.len() ==> keys[i] <= keys[j]
}

/// Where an item with key `k` goes: right behind the last key that is not
/// larger than `k`.
pub open spec fn slot(keys: Seq<u64>, k: u64) -> int
    decreases keys.len(),
{
    if keys.len() == 0 {
        0
    } else if keys.last() <= k {
        keys.len() as int
    } else {
        slot(keys.drop_last(), k)
    }
}

/// The slot lies within the sequence, everything from it on is larger than
/// `k`, and what stands just before it is not.
pub proof fn lemma_slot(keys: Seq<u64>, k: u64)
    ensures
        0 <= slot(keys, k) <= keys.len(),
        forall|i: int| slot(keys, k) <= i < keys.len() ==> keys[i] > k,
        slot(keys, k) > 0 ==> keys[slot(keys, k) - 1] <= k,
    decreases keys.len(),
{
    if keys.len() > 0 && keys.last() > k {
        let front = keys.drop_last();
        lemma_slot(front, k);
        assert forall|i: int| slot(keys, k) <= i < keys.len() implies keys[i] > k by {
            if i < front.len() {
                assert(front[i] == keys[i]);
            }
        }
        if slot(keys, k) > 0 {
            assert(front[slot(keys, k) - 1] == keys[slot(keys, k) - 1]);
        }
    }
}

/// Only one position has the two properties of the slot.
pub proof fn lemma_slot_unique(keys: Seq<u64>, k: u64, j: int)
    requires
        0 <= j <= keys.len(),
        forall|i: int| j <= i < keys.len() ==> keys[i] > k,
        j > 0 ==> keys[j - 1] <= k,
    ensures
        j == slot(keys, k),
{
    lemma_slot(keys, k);
    let s = slot(keys, k);
    if s < j {
        assert(keys[j - 1] > k);
    } else if j < s {
        assert(keys[s - 1] > k);
    }
}

/// Putting a key into its slot keeps an ascending sequence ascending.
pub proof fn lemma_insert_ascending(keys: Seq<u64>, k: u64)
    requires
        ascending(keys),
    ensures
        ascending(keys.insert(slot(keys, k), k)),
{
    lemma_slot(keys, k);
    let s = slot(keys, k);
    let out = keys.insert(s, k);
    assert forall|i: int, j: int| 0 <= i <= j < out.len() implies out[i] <= out[j] by {
        if i < s {
            assert(out[i] == keys[i]);
            assert(keys[i] <= keys[s - 1]);
        } else if i > s {
            assert(out[i] == keys[i - 1]);
        }
        if j < s {
            assert(out[j] == keys[j]);
        } else if j > s {
            assert(out[j] == keys[j - 1]);
        }
    }
}

} // verus!
