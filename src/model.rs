//! The mathematical model of the fund's holdings, and the facts about it that
//! the operations rely on.
use vstd::prelude::*;
use crate::fund::{AssetHolding, AssetWeight};

verus! {

/// Holdings as the contracts see them: one (asset, record) pair per entry.
pub type HoldingSeq = Seq<(Seq<char>, AssetHolding)>;

/// A batch of weight updates as the contracts see it: (asset, basis points).
pub type WeightSeq = Seq<(Seq<char>, u64)>;

/// The view of stored entries.
pub open spec fn entries_view(v: Seq<(String, AssetHolding)>) -> HoldingSeq {
    v.map_values(|e: (String, AssetHolding)| (e.0@, e.1))
}

/// The view of a batch of weights.
pub open spec fn weights_view(v: Seq<AssetWeight>) -> WeightSeq {
    v.map_values(|u: AssetWeight| (u.asset_address@, u.weight))
}

/// The (asset, weight) pairs of some holdings, in their order.
pub open spec fn weights_of(s: HoldingSeq) -> WeightSeq {
    s.map_values(|e: (Seq<char>, AssetHolding)| (e.0, e.1.weight))
}

/// No asset has two entries.
pub open spec fn keys_unique(s: HoldingSeq) -> bool {
    forall|i: int, j: int| 0 <= i < j < s.len() ==> s[i].0 != s[j].0
}

/// Whether some entry holds `k`.
pub open spec fn has_key(s: HoldingSeq, k: Seq<char>) -> bool {
    exists|i: int| 0 <= i < s.len() && s[i].0 == k
}

/// The index of the entry that holds `k`, or -1 where none does.
pub open spec fn index_of(s: HoldingSeq, k: Seq<char>) -> int {
    if has_key(s, k) {
        choose|i: int| 0 <= i < s.len() && s[i].0 == k
    } else {
        -1
    }
}

/// The sum of the weights of all entries.
pub open spec fn weight_total(s: HoldingSeq) -> int
    decreases s.len(),
{
    if s.len() == 0 {
        0
    } else {
        weight_total(s.drop_last()) + s.last().1.weight
    }
}

/// The record of a newly seen asset: nothing held, no price yet.
pub open spec fn fresh_holding(weight: u64, now: u64) -> AssetHolding {
    AssetHolding { balance: 0, weight, last_price: 0, last_updated: now }
}

/// One update written at time `now`: the asset's entry gets the new weight
/// and time, or a fresh entry is appended.
pub open spec fn apply_update(s: HoldingSeq, u: (Seq<char>, u64), now: u64) -> HoldingSeq {
    let i = index_of(s, u.0);
    if i >= 0 {
        s.update(i, (u.0, AssetHolding { weight: u.1, last_updated: now, ..s[i].1 }))
    } else {
        s.push((u.0, fresh_holding(u.1, now)))
    }
}

/// A batch applied in order; a later entry for an asset overrides an earlier one.
pub open spec fn apply_batch(s: HoldingSeq, ups: WeightSeq, now: u64) -> HoldingSeq
    decreases ups.len(),
{
    if ups.len() == 0 {
        s
    } else {
        apply_update(apply_batch(s, ups.drop_last(), now), ups.last(), now)
    }
}

/// Whether some update of the batch names `k`.
pub open spec fn names(ups: WeightSeq, k: Seq<char>) -> bool {
    exists|j: int| 0 <= j < ups.len() && ups[j].0 == k
}

pub proof fn lemma_index_of(s: HoldingSeq, k: Seq<char>, i: int)
    requires
        keys_unique(s),
        0 <= i < s.len(),
        s[i].0 == k,
    ensures
        index_of(s, k) == i,
{
    assert(has_key(s, k));
}

pub proof fn lemma_index_of_absent(s: HoldingSeq, k: Seq<char>)
    requires
        forall|i: int| 0 <= i < s.len() ==> s[i].0 != k,
    ensures
        index_of(s, k) == -1,
{
}

pub proof fn lemma_apply_update_unique(s: HoldingSeq, u: (Seq<char>, u64), now: u64)
    requires
        keys_unique(s),
    ensures
        keys_unique(apply_update(s, u, now)),
        has_key(apply_update(s, u, now), u.0),
        forall|k: Seq<char>| has_key(s, k) ==> has_key(apply_update(s, u, now), k),
{
    let r = apply_update(s, u, now);
    if has_key(s, u.0) {
        let i = index_of(s, u.0);
        assert(r[i].0 == u.0);
        assert forall|k: Seq<char>| has_key(s, k) implies has_key(r, k) by {
            let j = choose|j: int| 0 <= j < s.len() && s[j].0 == k;
            assert(r[j].0 == k);
        }
    } else {
        assert(r[s.len() as int].0 == u.0);
        assert forall|k: Seq<char>| has_key(s, k) implies has_key(r, k) by {
            let j = choose|j: int| 0 <= j < s.len() && s[j].0 == k;
            assert(r[j].0 == k);
        }
    }
}

pub proof fn lemma_apply_batch_unique(s: HoldingSeq, ups: WeightSeq, now: u64)
    requires
        keys_unique(s),
    ensures
        keys_unique(apply_batch(s, ups, now)),
    decreases ups.len(),
{
    if ups.len() > 0 {
        lemma_apply_batch_unique(s, ups.drop_last(), now);
        lemma_apply_update_unique(apply_batch(s, ups.drop_last(), now), ups.last(), now);
    }
}

/// Each prefix of the holdings weighs at most the whole.
pub proof fn lemma_weight_total_prefix(s: HoldingSeq, i: int)
    requires
        0 <= i <= s.len(),
    ensures
        weight_total(s.take(i)) <= weight_total(s),
    decreases s.len(),
{
    if i < s.len() {
        lemma_weight_total_prefix(s.drop_last(), i);
        assert(s.drop_last().take(i) =~= s.take(i));
    } else {
        assert(s.take(i) =~= s);
    }
}

/// Every asset that `t` holds and `s` did not has nothing held and no price.
pub open spec fn new_entries_start_empty(s: HoldingSeq, t: HoldingSeq) -> bool {
    forall|k: Seq<char>|
        !has_key(s, k) && #[trigger] has_key(t, k) ==> {
            &&& t[index_of(t, k)].1.balance == 0
            &&& t[index_of(t, k)].1.last_price == 0
        }
}

proof fn lemma_apply_update_starts_empty(s: HoldingSeq, t: HoldingSeq, u: (Seq<char>, u64), now: u64)
    requires
        keys_unique(t),
        new_entries_start_empty(s, t),
    ensures
        new_entries_start_empty(s, apply_update(t, u, now)),
{
    let r = apply_update(t, u, now);
    lemma_apply_update_unique(t, u, now);
    assert forall|k: Seq<char>| !has_key(s, k) && #[trigger] has_key(r, k) implies {
        &&& r[index_of(r, k)].1.balance == 0
        &&& r[index_of(r, k)].1.last_price == 0
    } by {
        let i = index_of(r, k);
        if has_key(t, u.0) {
            let iu = index_of(t, u.0);
            if i == iu {
                lemma_index_of(t, k, iu);
            } else {
                assert(r[i] == t[i]);
                lemma_index_of(t, k, i);
            }
        } else if i < t.len() {
            assert(r[i] == t[i]);
            lemma_index_of(t, k, i);
        }
    }
}

proof fn lemma_apply_batch_starts_empty(s: HoldingSeq, ups: WeightSeq, now: u64)
    requires
        keys_unique(s),
    ensures
        new_entries_start_empty(s, apply_batch(s, ups, now)),
        forall|k: Seq<char>| names(ups, k) ==> has_key(apply_batch(s, ups, now), k),
    decreases ups.len(),
{
    if ups.len() > 0 {
        let rest = ups.drop_last();
        let t = apply_batch(s, rest, now);
        lemma_apply_batch_starts_empty(s, rest, now);
        lemma_apply_batch_unique(s, rest, now);
        lemma_apply_update_starts_empty(s, t, ups.last(), now);
        lemma_apply_update_unique(t, ups.last(), now);
        assert forall|k: Seq<char>| names(ups, k) implies has_key(apply_batch(s, ups, now), k) by {
            let j = choose|j: int| 0 <= j < ups.len() && ups[j].0 == k;
            if j < rest.len() {
                assert(rest[j].0 == k);
                assert(names(rest, k));
            }
        }
    }
}

/// An asset that a batch names and that was not held before is held
/// afterwards, with nothing held and no price yet.
pub proof fn lemma_new_assets_start_empty(s: HoldingSeq, ups: WeightSeq, now: u64, k: Seq<char>)
    requires
        keys_unique(s),
        names(ups, k),
        !has_key(s, k),
    ensures
        has_key(apply_batch(s, ups, now), k),
        apply_batch(s, ups, now)[index_of(apply_batch(s, ups, now), k)].1.balance == 0,
        apply_batch(s, ups, now)[index_of(apply_batch(s, ups, now), k)].1.last_price == 0,
{
    lemma_apply_batch_starts_empty(s, ups, now);
}

} // verus!
