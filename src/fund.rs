use vstd::prelude::*;
use crate::model::{
    apply_batch, apply_update, entries_view, has_key, index_of, keys_unique,
    lemma_apply_batch_unique, lemma_apply_update_unique, lemma_index_of, lemma_index_of_absent,
    lemma_new_assets_start_empty, lemma_weight_total_prefix, names, weight_total, weights_of,
    weights_view, HoldingSeq, WeightSeq,
};

verus! {

/// Basis points that the weights of all held assets must sum to.
pub const TOTAL_WEIGHT: u64 = 10000;

/// Bytes of storage that the curator's deposit pays for.
pub const REGISTRATION_BYTES: u128 = 100;

/// Rebalance interval of a fund made by `default`: one day of one-second blocks.
pub const DEFAULT_REBALANCE_INTERVAL: u64 = 86400;

/// Cost of one byte of storage, in yoctoNEAR.
pub open spec fn storage_byte_cost_spec() -> u128 {
    10_000_000_000_000_000_000
}

/// Deposit, in yoctoNEAR, that registering the curator takes at the least.
pub open spec fn required_deposit() -> int {
    storage_byte_cost_spec() * REGISTRATION_BYTES
}

/// Relies on near_sdk::env::storage_byte_cost: the price of one byte of
/// storage, a fixed 10^19 yoctoNEAR in this version of the SDK.
#[verifier::external_body]
fn storage_byte_cost() -> (r: u128)
    ensures
        r == storage_byte_cost_spec(),
{
    near_sdk::env::storage_byte_cost().as_yoctonear()
}

/// Why a call on the fund was refused. A refused call changes nothing.
#[derive(Debug, Clone, Copy, PartialEq, Eq, Structural)]
pub enum FundError {
    /// The rebalance interval given to `new` is zero.
    InvalidArgument,
    /// A curator is registered already.
    AlreadyRegistered,
    /// The deposit attached to the registration is below the storage cost.
    InsufficientPayment,
    /// No curator is registered yet.
    NotRegistered,
    /// The caller is not the registered curator.
    Unauthorized,
    /// The weights after the batch would not sum to `TOTAL_WEIGHT`.
    InvalidWeightSum,
}

/// One entry of a weight update, and one line of `get_weights`.
#[derive(Debug, PartialEq, Eq)]
pub struct AssetWeight {
    /// Basis points (5000 is 50%).
    pub weight: u64,
    pub asset_address: String,
}

/// What the fund records of one asset.
#[derive(Debug, Clone, Copy, PartialEq, Eq, Structural)]
pub struct AssetHolding {
    /// Amount held, in the asset's smallest unit; kept for a rebalancing step.
    pub balance: u128,
    /// Basis points.
    pub weight: u64,
    /// Last known price; kept for a price feed.
    pub last_price: u128,
    /// Time of the last write of `weight`.
    pub last_updated: u64,
}

/// The fund: its curator, its holdings keyed by asset, and its rebalance timing.
pub struct IndexFund {
    /// A curator is normally a DAO, but could be any account.
    pub curator_address: Option<String>,
    /// One entry per asset; no two entries share an asset (see `wf`).
    pub assets: Vec<(String, AssetHolding)>,
    pub last_rebalance: u64,
    /// In blocks.
    pub rebalance_interval: u64,
}


impl IndexFund {
    /// The holdings, in their stored order.
    pub open spec fn holdings(&self) -> HoldingSeq {
        entries_view(self.assets@)
    }

    /// The registered curator, if any.
    pub open spec fn curator(&self) -> Option<Seq<char>> {
        match self.curator_address {
            Some(c) => Some(c@),
            None => None,
        }
    }

    /// The fund's invariant: a positive interval, and one entry per asset.
    pub open spec fn wf(&self) -> bool {
        self.rebalance_interval > 0 && keys_unique(self.holdings())
    }

    /// A fund with no curator and no holdings.
    pub open spec fn is_empty_fund(&self, rebalance_interval: u64) -> bool {
        &&& self.wf()
        &&& self.curator_address is None
        &&& self.holdings().len() == 0
        &&& self.last_rebalance == 0
        &&& self.rebalance_interval == rebalance_interval
    }
}

/// What registering `curator` with `deposit` attached returns on a fund whose
/// curator is `current`.
pub open spec fn registration_outcome(current: Option<Seq<char>>, deposit: u128) -> Result<(), FundError> {
    if current is Some {
        Err(FundError::AlreadyRegistered)
    } else if deposit < required_deposit() {
        Err(FundError::InsufficientPayment)
    } else {
        Ok(())
    }
}

/// `after` and `r` are what registering `curator` with `deposit` attached
/// makes of `before`.
pub open spec fn registers(
    before: IndexFund,
    after: IndexFund,
    curator: Seq<char>,
    deposit: u128,
    r: Result<(), FundError>,
) -> bool {
    &&& r == registration_outcome(before.curator(), deposit)
    &&& r is Ok ==> {
        &&& after.curator() == Some(curator)
        &&& after.holdings() == before.holdings()
        &&& after.last_rebalance == before.last_rebalance
        &&& after.rebalance_interval == before.rebalance_interval
    }
    &&& r is Err ==> after == before
}

/// What a batch of weight updates by `caller` returns on a fund with curator
/// `curator` and holdings `held`.
pub open spec fn update_outcome(
    curator: Option<Seq<char>>,
    held: HoldingSeq,
    updates: WeightSeq,
    caller: Seq<char>,
    now: u64,
) -> Result<(), FundError> {
    match curator {
        None => Err(FundError::NotRegistered),
        Some(c) => if c != caller {
            Err(FundError::Unauthorized)
        } else if weight_total(apply_batch(held, updates, now)) != TOTAL_WEIGHT {
            Err(FundError::InvalidWeightSum)
        } else {
            Ok(())
        },
    }
}

/// Once a registration has succeeded, every later one fails with
/// `AlreadyRegistered`, whatever the identity and the deposit, and changes
/// nothing.
pub proof fn lemma_single_registration(
    f0: IndexFund,
    f1: IndexFund,
    first: Seq<char>,
    first_deposit: u128,
    f2: IndexFund,
    second: Seq<char>,
    second_deposit: u128,
    r2: Result<(), FundError>,
)
    requires
        registers(f0, f1, first, first_deposit, Ok(())),
        registers(f1, f2, second, second_deposit, r2),
    ensures
        r2 == Err::<(), FundError>(FundError::AlreadyRegistered),
        f2 == f1,
{
}

impl Default for IndexFund {
    /// A fund with no curator, no holdings and the default interval.
    fn default() -> (r: Self)
        ensures
            r.is_empty_fund(DEFAULT_REBALANCE_INTERVAL),
    {
        IndexFund {
            curator_address: None,
            assets: Vec::new(),
            last_rebalance: 0,
            rebalance_interval: DEFAULT_REBALANCE_INTERVAL,
        }
    }
}

impl IndexFund {
    /// A fund with no curator, no holdings and the given interval, which must
    /// be positive.
    pub fn new(rebalance_interval: u64) -> (r: Result<IndexFund, FundError>)
        ensures
            rebalance_interval == 0 <==> r == Err::<IndexFund, FundError>(FundError::InvalidArgument),
            r is Ok <==> rebalance_interval > 0,
            r matches Ok(f) ==> f.is_empty_fund(rebalance_interval),
    {
        if rebalance_interval == 0 {
            return Err(FundError::InvalidArgument);
        }
        Ok(IndexFund { curator_address: None, assets: Vec::new(), last_rebalance: 0, rebalance_interval })
    }

    /// Registers the fund's curator, once, against a deposit (in yoctoNEAR)
    /// that pays for `REGISTRATION_BYTES` of storage.
    pub fn register_curator(&mut self, curator_address: String, attached_deposit: u128) -> (r: Result<(), FundError>)
        requires
            old(self).wf(),
        ensures
            final(self).wf(),
            registers(*old(self), *final(self), curator_address@, attached_deposit, r),
    {
        if self.curator_address.is_some() {
            return Err(FundError::AlreadyRegistered);
        }
        let required = storage_byte_cost() * REGISTRATION_BYTES;
        if attached_deposit < required {
            return Err(FundError::InsufficientPayment);
        }
        self.curator_address = Some(curator_address);
        Ok(())
    }

    /// Applies a batch of weights sent by `caller` at time `now`, all or
    /// nothing: only the curator may, and only if afterwards the weights of
    /// all held assets sum to `TOTAL_WEIGHT`. An asset seen for the first
    /// time gets a fresh holding; a later entry for an asset overrides an
    /// earlier one.
    pub fn update_weights(&mut self, updates: Vec<AssetWeight>, caller: &String, now: u64) -> (r: Result<(), FundError>)
        requires
            old(self).wf(),
        ensures
            final(self).wf(),
            r == update_outcome(old(self).curator(), old(self).holdings(), weights_view(updates@), caller@, now),
            r is Ok ==> {
                &&& final(self).holdings() == apply_batch(old(self).holdings(), weights_view(updates@), now)
                &&& final(self).curator_address == old(self).curator_address
                &&& final(self).last_rebalance == old(self).last_rebalance
                &&& final(self).rebalance_interval == old(self).rebalance_interval
            },
            r is Ok ==> weight_total(final(self).holdings()) == TOTAL_WEIGHT,
            r is Ok ==> forall|k: Seq<char>|
                names(weights_view(updates@), k) && !has_key(old(self).holdings(), k) ==> {
                    let h = final(self).holdings();
                    &&& has_key(h, k)
                    &&& h[index_of(h, k)].1.balance == 0
                    &&& h[index_of(h, k)].1.last_price == 0
                },
            r is Err ==> *final(self) == *old(self),
            old(self).curator() matches Some(c) && c != caller@
                ==> r == Err::<(), FundError>(FundError::Unauthorized),
    {
        let curator = match &self.curator_address {
            Some(c) => c,
            None => {
                return Err(FundError::NotRegistered);
            },
        };
        if !(*caller == *curator) {
            return Err(FundError::Unauthorized);
        }
        let ghost held = self.holdings();
        let ghost ups = weights_view(updates@);
        let mut candidate: Vec<(String, AssetHolding)> = Vec::new();
        let mut i: usize = 0;
        while i < self.assets.len()
            invariant
                i <= self.assets@.len(),
                held == entries_view(self.assets@),
                candidate@.len() == i,
                entries_view(candidate@) == held.take(i as int),
            decreases self.assets@.len() - i,
        {
            let key = self.assets[i].0.clone();
            let entry = (key, self.assets[i].1);
            candidate.push(entry);
            assert(candidate@[i as int].0@ == held[i as int].0);
            assert(entries_view(candidate@) =~= held.take(i + 1));
            i = i + 1;
        }
        assert(held.take(i as int) =~= held);
        let mut j: usize = 0;
        while j < updates.len()
            invariant
                j <= updates@.len(),
                ups == weights_view(updates@),
                keys_unique(held),
                keys_unique(entries_view(candidate@)),
                entries_view(candidate@) == apply_batch(held, ups.take(j as int), now),
            decreases updates@.len() - j,
        {
            apply_update_to(&mut candidate, &updates[j], now);
            assert(ups.take(j + 1).drop_last() =~= ups.take(j as int));
            j = j + 1;
        }
        assert(ups.take(j as int) =~= ups);
        if !weights_sum_to_total(&candidate) {
            return Err(FundError::InvalidWeightSum);
        }
        proof {
            lemma_apply_batch_unique(held, ups, now);
            assert forall|k: Seq<char>| names(ups, k) && !has_key(held, k) implies {
                let h = apply_batch(held, ups, now);
                &&& has_key(h, k)
                &&& h[index_of(h, k)].1.balance == 0
                &&& h[index_of(h, k)].1.last_price == 0
            } by {
                lemma_new_assets_start_empty(held, ups, now, k);
            }
        }
        self.assets = candidate;
        Ok(())
    }

    /// The (asset, weight) pair of every holding, in stored order.
    pub fn get_weights(&self) -> (r: Vec<AssetWeight>)
        ensures
            r@.len() == self.holdings().len(),
            weights_view(r@) == weights_of(self.holdings()),
    {
        let ghost held = self.holdings();
        let mut r: Vec<AssetWeight> = Vec::new();
        let mut i: usize = 0;
        while i < self.assets.len()
            invariant
                i <= self.assets@.len(),
                held == entries_view(self.assets@),
                r@.len() == i,
                weights_view(r@) == weights_of(held.take(i as int)),
            decreases self.assets@.len() - i,
        {
            let line = AssetWeight { weight: self.assets[i].1.weight, asset_address: self.assets[i].0.clone() };
            let ghost before = r@;
            r.push(line);
            assert(r@[i as int].asset_address@ == held[i as int].0);
            assert forall|j: int| 0 <= j < i implies r@[j] == before[j] && weights_view(before)[j]
                == weights_of(held.take(i as int))[j] by {}
            assert(weights_view(r@) =~= weights_of(held.take(i + 1)));
            i = i + 1;
        }
        assert(held.take(i as int) =~= held);
        r
    }

    /// Every held asset, in stored order.
    pub fn get_assets(&self) -> (r: Vec<String>)
        ensures
            r@.len() == self.holdings().len(),
            r@.map_values(|a: String| a@) == self.holdings().map_values(|e: (Seq<char>, AssetHolding)| e.0),
    {
        let ghost held = self.holdings();
        let mut r: Vec<String> = Vec::new();
        let mut i: usize = 0;
        while i < self.assets.len()
            invariant
                i <= self.assets@.len(),
                held == entries_view(self.assets@),
                r@.len() == i,
                r@.map_values(|a: String| a@) == held.take(i as int).map_values(
                    |e: (Seq<char>, AssetHolding)| e.0,
                ),
            decreases self.assets@.len() - i,
        {
            let ghost before = r@;
            r.push(self.assets[i].0.clone());
            assert(r@[i as int]@ == held[i as int].0);
            assert forall|j: int| 0 <= j < i implies r@[j] == before[j] && before.map_values(|a: String| a@)[j]
                == held.take(i as int).map_values(|e: (Seq<char>, AssetHolding)| e.0)[j] by {}
            assert(r@.map_values(|a: String| a@) =~= held.take(i + 1).map_values(
                |e: (Seq<char>, AssetHolding)| e.0,
            ));
            i = i + 1;
        }
        assert(held.take(i as int) =~= held);
        r
    }

    /// Whether the fund meets its invariant: a positive interval, and no
    /// asset held twice. A fund built field by field can be checked with it
    /// before it is handed to an operation.
    pub fn is_wf(&self) -> (r: bool)
        ensures
            r == self.wf(),
    {
        if self.rebalance_interval == 0 {
            return false;
        }
        let ghost held = self.holdings();
        let mut i: usize = 0;
        while i < self.assets.len()
            invariant
                i <= self.assets@.len(),
                held == entries_view(self.assets@),
                forall|a: int, b: int| 0 <= a < b < held.len() && a < i ==> held[a].0 != held[b].0,
            decreases self.assets@.len() - i,
        {
            let mut j: usize = i + 1;
            while j < self.assets.len()
                invariant
                    i < j <= self.assets@.len(),
                    i < self.assets@.len(),
                    held == entries_view(self.assets@),
                    forall|a: int, b: int| 0 <= a < b < held.len() && a < i ==> held[a].0 != held[b].0,
                    forall|b: int| i < b < j ==> held[i as int].0 != held[b].0,
                decreases self.assets@.len() - j,
            {
                if self.assets[i].0 == self.assets[j].0 {
                    assert(held[i as int].0 == held[j as int].0);
                    return false;
                }
                j = j + 1;
            }
            i = i + 1;
        }
        true
    }

    /// The record held for `asset_address`, if the fund holds it.
    pub fn get_holding(&self, asset_address: &String) -> (r: Option<AssetHolding>)
        requires
            self.wf(),
        ensures
            match r {
                Some(h) => index_of(self.holdings(), asset_address@) >= 0 && h == self.holdings()[index_of(
                    self.holdings(),
                    asset_address@,
                )].1,
                None => index_of(self.holdings(), asset_address@) == -1,
            },
    {
        match find_asset(&self.assets, asset_address) {
            Some(i) => {
                proof {
                    lemma_index_of(self.holdings(), asset_address@, i as int);
                }
                Some(self.assets[i].1)
            },
            None => {
                proof {
                    lemma_index_of_absent(self.holdings(), asset_address@);
                }
                None
            },
        }
    }
}

/// Finds the entry of `key`.
fn find_asset(entries: &Vec<(String, AssetHolding)>, key: &String) -> (r: Option<usize>)
    ensures
        match r {
            Some(i) => i < entries@.len() && entries@[i as int].0@ == key@,
            None => forall|i: int| 0 <= i < entries@.len() ==> entries@[i].0@ != key@,
        },
{
    let mut i: usize = 0;
    while i < entries.len()
        invariant
            i <= entries@.len(),
            forall|j: int| 0 <= j < i ==> entries@[j].0@ != key@,
        decreases entries@.len() - i,
    {
        if entries[i].0 == *key {
            return Some(i);
        }
        i = i + 1;
    }
    None
}

/// Writes one update into `entries` at time `now`.
fn apply_update_to(entries: &mut Vec<(String, AssetHolding)>, update: &AssetWeight, now: u64)
    requires
        keys_unique(entries_view(old(entries)@)),
    ensures
        keys_unique(entries_view(final(entries)@)),
        entries_view(final(entries)@) == apply_update(
            entries_view(old(entries)@),
            (update.asset_address@, update.weight),
            now,
        ),
{
    let ghost s = entries_view(entries@);
    let ghost u = (update.asset_address@, update.weight);
    proof {
        lemma_apply_update_unique(s, u, now);
    }
    match find_asset(entries, &update.asset_address) {
        Some(i) => {
            proof {
                lemma_index_of(s, u.0, i as int);
            }
            let held = entries[i].1;
            let holding = AssetHolding { weight: update.weight, last_updated: now, ..held };
            entries.set(i, (update.asset_address.clone(), holding));
            assert(entries_view(entries@) =~= apply_update(s, u, now));
        },
        None => {
            proof {
                lemma_index_of_absent(s, u.0);
            }
            let holding = AssetHolding {
                balance: 0,
                weight: update.weight,
                last_price: 0,
                last_updated: now,
            };
            entries.push((update.asset_address.clone(), holding));
            assert(entries_view(entries@) =~= apply_update(s, u, now));
        },
    }
}

/// Whether the weights of `entries` sum to exactly `TOTAL_WEIGHT`.
fn weights_sum_to_total(entries: &Vec<(String, AssetHolding)>) -> (r: bool)
    ensures
        r == (weight_total(entries_view(entries@)) == TOTAL_WEIGHT),
{
    let ghost s = entries_view(entries@);
    let mut total: u64 = 0;
    let mut i: usize = 0;
    while i < entries.len()
        invariant
            i <= entries@.len(),
            s == entries_view(entries@),
            total == weight_total(s.take(i as int)),
            total <= TOTAL_WEIGHT,
        decreases entries@.len() - i,
    {
        let w = entries[i].1.weight;
        assert(s.take(i + 1).drop_last() =~= s.take(i as int));
        if w > TOTAL_WEIGHT - total {
            proof {
                lemma_weight_total_prefix(s, i + 1);
            }
            return false;
        }
        total = total + w;
        i = i + 1;
    }
    assert(s.take(i as int) =~= s);
    total == TOTAL_WEIGHT
}

} // verus!
