use index_fund::{AssetHolding, AssetWeight, FundError, IndexFund};
use near_sdk::AccountId;
use std::str::FromStr;

const DEPOSIT: u128 = 1_000_000_000_000_000_000_000;

/// One NEAR, in yoctoNEAR.
const ONE_NEAR: u128 = 1_000_000_000_000_000_000_000_000;

fn account(s: &str) -> String {
    AccountId::from_str(s).unwrap().to_string()
}

fn weight(asset: &str, w: u64) -> AssetWeight {
    AssetWeight { weight: w, asset_address: account(asset) }
}

fn weight_of(fund: &IndexFund, asset: &str) -> Option<u64> {
    let asset = account(asset);
    fund.get_weights().iter().find(|w| w.asset_address == asset).map(|w| w.weight)
}

fn fund_with_curator(curator: &str) -> IndexFund {
    let mut fund = IndexFund::default();
    fund.curator_address = Some(account(curator));
    fund
}

#[test]
fn test_default_index_fund() {
    let contract = IndexFund::default();
    assert!(contract.curator_address.is_none());
    assert_eq!(contract.last_rebalance, 0);
    assert_eq!(contract.rebalance_interval, 86400);
    assert_eq!(contract.get_assets().len(), 0);
}

#[test]
fn test_update_weights() {
    let curator = account("curator.near");
    let asset1 = account("asset1.near");
    let asset2 = account("asset2.near");

    let mut contract = IndexFund::default();
    contract.curator_address = Some(curator.clone());

    let updates = vec![
        AssetWeight { weight: 6000, asset_address: asset1.clone() },
        AssetWeight { weight: 4000, asset_address: asset2.clone() },
    ];

    assert_eq!(contract.update_weights(updates, &curator, 100), Ok(()));

    let weights = contract.get_weights();
    assert_eq!(weights.len(), 2);

    let asset1_weight = weights.iter().find(|w| w.asset_address == asset1).expect("Asset1 not found");
    assert_eq!(asset1_weight.weight, 6000);

    let asset2_weight = weights.iter().find(|w| w.asset_address == asset2).expect("Asset2 not found");
    assert_eq!(asset2_weight.weight, 4000);
}

#[test]
fn test_update_weights_without_curator() {
    let mut contract = IndexFund::default();
    let caller = account("curator.near");
    let r = contract.update_weights(vec![weight("asset.near", 10000)], &caller, 100);
    assert_eq!(r, Err(FundError::NotRegistered));
    assert_eq!(contract.get_weights().len(), 0);
}

#[test]
fn test_update_weights_unauthorized() {
    let mut contract = fund_with_curator("curator.near");
    let unauthorized = account("unauthorized.near");
    let r = contract.update_weights(vec![weight("asset.near", 10000)], &unauthorized, 100);
    assert_eq!(r, Err(FundError::Unauthorized));
    assert_eq!(contract.get_assets().len(), 0);
}

#[test]
fn test_update_weights_invalid_sum() {
    let mut contract = fund_with_curator("curator.near");
    let curator = account("curator.near");
    // Only 50% instead of the required 100%.
    let r = contract.update_weights(vec![weight("asset.near", 5000)], &curator, 100);
    assert_eq!(r, Err(FundError::InvalidWeightSum));
    assert_eq!(contract.get_weights().len(), 0);
}

#[test]
fn test_contract_is_operational() {
    let mut contract = IndexFund::new(86400).unwrap();
    let curator = account("curator.near");
    assert_eq!(contract.register_curator(curator.clone(), ONE_NEAR), Ok(()));
    assert_eq!(contract.curator_address, Some(curator.clone()));
    let updates = vec![weight("asset1.near", 6000), weight("asset2.near", 4000)];
    assert_eq!(contract.update_weights(updates, &curator, 1), Ok(()));
    assert_eq!(contract.get_weights().len(), 2);
    assert_eq!(weight_of(&contract, "asset1.near"), Some(6000));
    assert_eq!(weight_of(&contract, "asset2.near"), Some(4000));
}

#[test]
fn new_rejects_zero_interval() {
    assert!(matches!(IndexFund::new(0), Err(FundError::InvalidArgument)));
}

#[test]
fn new_keeps_interval() {
    let fund = IndexFund::new(1).unwrap();
    assert_eq!(fund.rebalance_interval, 1);
    assert_eq!(fund.last_rebalance, 0);
    assert!(fund.curator_address.is_none());
}

#[test]
fn new_fund_is_empty() {
    let fund = IndexFund::new(86400).unwrap();
    assert!(fund.get_assets().is_empty());
    assert!(fund.get_weights().is_empty());
}

#[test]
fn registration_needs_storage_deposit() {
    let mut fund = IndexFund::default();
    let curator = account("curator.near");
    assert_eq!(fund.register_curator(curator.clone(), DEPOSIT - 1), Err(FundError::InsufficientPayment));
    assert!(fund.curator_address.is_none());
    assert_eq!(fund.register_curator(curator.clone(), DEPOSIT), Ok(()));
    assert_eq!(fund.curator_address, Some(curator));
}

#[test]
fn second_registration_fails() {
    let mut fund = IndexFund::default();
    assert_eq!(fund.register_curator(account("first.near"), DEPOSIT), Ok(()));
    let r = fund.register_curator(account("second.near"), DEPOSIT * 10);
    assert_eq!(r, Err(FundError::AlreadyRegistered));
    assert_eq!(fund.register_curator(account("first.near"), 0), Err(FundError::AlreadyRegistered));
    assert_eq!(fund.curator_address, Some(account("first.near")));
}

#[test]
fn registered_curator_updates_weights() {
    let mut fund = IndexFund::default();
    let curator = account("c.near");
    assert_eq!(fund.register_curator(curator.clone(), DEPOSIT), Ok(()));
    let r = fund.update_weights(vec![weight("a.near", 6000), weight("b.near", 4000)], &curator, 5);
    assert_eq!(r, Ok(()));
    let mut weights: Vec<(String, u64)> =
        fund.get_weights().into_iter().map(|w| (w.asset_address, w.weight)).collect();
    weights.sort();
    assert_eq!(weights, vec![(account("a.near"), 6000), (account("b.near"), 4000)]);
}

#[test]
fn unauthorized_caller_changes_nothing() {
    let mut fund = fund_with_curator("c.near");
    let curator = account("c.near");
    fund.update_weights(vec![weight("a.near", 6000), weight("b.near", 4000)], &curator, 5).unwrap();
    let r = fund.update_weights(vec![weight("a.near", 10000), weight("b.near", 0)], &account("x.near"), 6);
    assert_eq!(r, Err(FundError::Unauthorized));
    assert_eq!(weight_of(&fund, "a.near"), Some(6000));
    assert_eq!(weight_of(&fund, "b.near"), Some(4000));
}

#[test]
fn partial_batch_is_checked_against_whole_portfolio() {
    let mut fund = fund_with_curator("c.near");
    let curator = account("c.near");
    fund.update_weights(vec![weight("a.near", 6000), weight("b.near", 4000)], &curator, 5).unwrap();
    let r = fund.update_weights(vec![weight("a.near", 3000)], &curator, 6);
    assert_eq!(r, Err(FundError::InvalidWeightSum));
    assert_eq!(fund.get_weights().len(), 2);
    assert_eq!(weight_of(&fund, "a.near"), Some(6000));
    assert_eq!(weight_of(&fund, "b.near"), Some(4000));
    let held = fund.get_holding(&account("a.near")).unwrap();
    assert_eq!(held.last_updated, 5);
}

#[test]
fn partial_batch_that_balances_is_accepted() {
    let mut fund = fund_with_curator("c.near");
    let curator = account("c.near");
    fund.update_weights(vec![weight("a.near", 6000), weight("b.near", 4000)], &curator, 5).unwrap();
    let r = fund.update_weights(vec![weight("a.near", 3000), weight("c.near", 3000)], &curator, 9);
    assert_eq!(r, Ok(()));
    assert_eq!(fund.get_assets().len(), 3);
    assert_eq!(weight_of(&fund, "a.near"), Some(3000));
    assert_eq!(weight_of(&fund, "b.near"), Some(4000));
    assert_eq!(weight_of(&fund, "c.near"), Some(3000));
    assert_eq!(fund.get_holding(&account("a.near")).unwrap().last_updated, 9);
    assert_eq!(fund.get_holding(&account("b.near")).unwrap().last_updated, 5);
}

#[test]
fn later_duplicate_in_batch_wins() {
    let mut fund = fund_with_curator("c.near");
    let curator = account("c.near");
    let batch = vec![weight("a.near", 1000), weight("b.near", 4000), weight("a.near", 6000)];
    assert_eq!(fund.update_weights(batch, &curator, 3), Ok(()));
    assert_eq!(fund.get_assets().len(), 2);
    assert_eq!(weight_of(&fund, "a.near"), Some(6000));
    let bad = vec![weight("a.near", 6000), weight("a.near", 1000)];
    assert_eq!(fund.update_weights(bad, &curator, 4), Err(FundError::InvalidWeightSum));
}

#[test]
fn new_asset_starts_with_nothing_held() {
    let mut fund = fund_with_curator("c.near");
    let curator = account("c.near");
    assert_eq!(fund.update_weights(vec![weight("a.near", 10000)], &curator, 42), Ok(()));
    let held = fund.get_holding(&account("a.near")).unwrap();
    assert_eq!(held, AssetHolding { balance: 0, weight: 10000, last_price: 0, last_updated: 42 });
    assert_eq!(fund.get_holding(&account("b.near")), None);
}

#[test]
fn weight_above_total_is_rejected() {
    let mut fund = fund_with_curator("c.near");
    let curator = account("c.near");
    let r = fund.update_weights(vec![weight("a.near", u64::MAX), weight("b.near", 1)], &curator, 1);
    assert_eq!(r, Err(FundError::InvalidWeightSum));
    assert!(fund.get_assets().is_empty());
}

#[test]
fn zero_weight_asset_is_kept() {
    let mut fund = fund_with_curator("c.near");
    let curator = account("c.near");
    let r = fund.update_weights(vec![weight("a.near", 10000), weight("b.near", 0)], &curator, 1);
    assert_eq!(r, Ok(()));
    assert_eq!(fund.get_assets().len(), 2);
    assert_eq!(weight_of(&fund, "b.near"), Some(0));
}

#[test]
fn empty_batch_on_balanced_fund_is_accepted() {
    let mut fund = fund_with_curator("c.near");
    let curator = account("c.near");
    fund.update_weights(vec![weight("a.near", 10000)], &curator, 1).unwrap();
    assert_eq!(fund.update_weights(Vec::new(), &curator, 2), Ok(()));
    assert_eq!(fund.update_weights(Vec::new(), &curator, 2), Ok(()));
    let mut empty = fund_with_curator("c.near");
    assert_eq!(empty.update_weights(Vec::new(), &curator, 2), Err(FundError::InvalidWeightSum));
}

#[test]
fn well_formedness_is_checked() {
    let mut fund = IndexFund::new(10).unwrap();
    assert!(fund.is_wf());
    let holding = AssetHolding { balance: 0, weight: 5000, last_price: 0, last_updated: 0 };
    fund.assets.push((account("a.near"), holding));
    fund.assets.push((account("b.near"), holding));
    assert!(fund.is_wf());
    fund.assets.push((account("a.near"), holding));
    assert!(!fund.is_wf());
    let mut zero = IndexFund::default();
    zero.rebalance_interval = 0;
    assert!(!zero.is_wf());
}
