use ics101::error::ContractError;
use ics101::market::{
    Coin, InterchainLiquidityPool, InterchainMarketMaker, PoolAsset, PoolSide, PoolStatus,
    INIT_LP_TOKENS, MULTIPLIER,
};
use ics101::math::SCALE;

fn coin(denom: &str, amount: u128) -> Coin {
    Coin { denom: denom.to_string(), amount }
}

fn asset(side: PoolSide, denom: &str, amount: u128, weight: u32, decimal: u32) -> PoolAsset {
    PoolAsset { side, balance: coin(denom, amount), weight, decimal }
}

fn pool(
    foo: u128,
    bar: u128,
    weight_foo: u32,
    supply: u128,
    swap_fee: u32,
    status: PoolStatus,
) -> InterchainLiquidityPool {
    InterchainLiquidityPool {
        assets: vec![
            asset(PoolSide::SOURCE, "foo", foo, weight_foo, 18),
            asset(PoolSide::DESTINATION, "bar", bar, 100 - weight_foo, 18),
        ],
        counter_party_channel: "channel-0".to_string(),
        counter_party_port: "transfer".to_string(),
        destination_chain_id: "chain-b".to_string(),
        destination_creator: "bob".to_string(),
        id: "pool-test".to_string(),
        source_chain_id: "chain-a".to_string(),
        source_creator: "alice".to_string(),
        status,
        supply: coin("pool-test", supply),
        swap_fee,
        pool_price: 0,
    }
}

#[test]
fn find_and_mutate_assets() {
    let mut p = pool(100, 200, 50, 0, 300, PoolStatus::Initialized);
    let a = p.find_asset_by_denom(&"bar".to_string()).unwrap();
    assert_eq!(a.balance.amount, 200);
    assert_eq!(
        p.find_asset_by_denom(&"baz".to_string()).unwrap_err(),
        ContractError::DenomNotFound
    );
    let s = p.find_asset_by_side(PoolSide::SOURCE).unwrap();
    assert_eq!(s.balance.denom, "foo");

    p.add_asset(coin("foo", 40)).unwrap();
    assert_eq!(p.assets[0].balance.amount, 140);
    assert_eq!(
        p.add_asset(coin("baz", 1)).unwrap_err(),
        ContractError::DenomNotFound
    );
    p.subtract_asset(coin("foo", 40)).unwrap();
    assert_eq!(p.assets[0].balance.amount, 100);
    assert_eq!(
        p.subtract_asset(coin("foo", 101)).unwrap_err(),
        ContractError::InsufficientBalance
    );
    // Weights are invariant under every mutation.
    assert_eq!(p.assets[0].weight + p.assets[1].weight, 100);
}

#[test]
fn supply_mutations_check_the_denom() {
    let mut p = pool(100, 200, 50, 10, 300, PoolStatus::Active);
    p.add_supply(coin("pool-test", 5)).unwrap();
    assert_eq!(p.supply.amount, 15);
    assert_eq!(
        p.add_supply(coin("other", 5)).unwrap_err(),
        ContractError::DenomMismatch
    );
    p.subtract_supply(coin("pool-test", 15)).unwrap();
    assert_eq!(p.supply.amount, 0);
    let mut p2 = pool(100, 200, 50, 10, 300, PoolStatus::Active);
    assert_eq!(
        p2.subtract_supply(coin("pool-test", 11)).unwrap_err(),
        ContractError::InsufficientSupply
    );
}

#[test]
fn bootstrap_deposit_mints_the_initial_shares() {
    // A freshly initialized pool with zero supply accepts any ratio and
    // mints the fixed initial amount, with no remainder.
    let p = pool(100, 200, 50, 0, 300, PoolStatus::Initialized);
    let amm = InterchainMarketMaker::new(&p, p.swap_fee);
    let tokens = vec![coin("foo", 33), coin("bar", 999)];
    let (minted, accepted, rem) = amm.deposit_multi_asset(&tokens).unwrap();
    assert_eq!(minted, INIT_LP_TOKENS * MULTIPLIER);
    assert_eq!(rem.len(), 0);
    assert_eq!(accepted.len(), 2);
    assert_eq!(accepted[0].amount, 33);
    assert_eq!(accepted[1].amount, 999);
}

#[test]
fn proportional_deposit_has_no_remainder() {
    let p = pool(100, 200, 50, 1000, 300, PoolStatus::Active);
    let amm = InterchainMarketMaker::new(&p, p.swap_fee);
    // Exactly half of each balance: the binding ratio is one half.
    let tokens = vec![coin("foo", 50), coin("bar", 100)];
    let (minted, accepted, rem) = amm.deposit_multi_asset(&tokens).unwrap();
    assert_eq!(minted, 500);
    assert_eq!(rem.len(), 0);
    assert_eq!(accepted[0].amount, 50);
    assert_eq!(accepted[1].amount, 100);
}

#[test]
fn excess_deposit_returns_the_excess() {
    let p = pool(100, 100, 50, 1000, 300, PoolStatus::Active);
    let amm = InterchainMarketMaker::new(&p, p.swap_fee);
    // foo binds at one half; 30 of the 80 bar come back as remainder.
    let tokens = vec![coin("foo", 50), coin("bar", 80)];
    let (minted, accepted, rem) = amm.deposit_multi_asset(&tokens).unwrap();
    assert_eq!(minted, 500);
    assert_eq!(accepted.len(), 2);
    assert_eq!(accepted[0].denom, "foo");
    assert_eq!(accepted[0].amount, 50);
    assert_eq!(accepted[1].denom, "bar");
    assert_eq!(accepted[1].amount, 50);
    assert_eq!(rem.len(), 1);
    assert_eq!(rem[0].denom, "bar");
    assert_eq!(rem[0].amount, 30);
    // Per asset, absorbed plus remainder re-adds to the input.
    assert_eq!(accepted[1].amount + rem[0].amount, 80);
}

#[test]
fn deposit_unknown_denom_fails() {
    let p = pool(100, 100, 50, 1000, 300, PoolStatus::Active);
    let amm = InterchainMarketMaker::new(&p, p.swap_fee);
    let tokens = vec![coin("foo", 50), coin("baz", 80)];
    assert_eq!(
        amm.deposit_multi_asset(&tokens).unwrap_err(),
        ContractError::DenomNotFound
    );
}

#[test]
fn swap_on_balanced_pool_stays_on_the_curve() {
    // Pool of 100 foo and 100 bar at equal weights, zero fee: swapping in
    // 10 foo yields strictly between 9 and 10 bar (curve, not 1:1), and
    // the post-trade balances stay on the constant product within
    // rounding.  Amounts carry 18 decimals.
    let p = pool(100, 100, 50, 1000, 0, PoolStatus::Active);
    let amm = InterchainMarketMaker::new(&p, 0);
    let out = amm.compute_swap(coin("foo", 10), &"bar".to_string()).unwrap();
    assert_eq!(out.denom, "bar");
    assert!(out.amount > 9 * SCALE);
    assert!(out.amount < 10 * SCALE);
    // (100 + 10) * (100*SCALE - out) is the constant product at raw scale;
    // compare against 100 * 100 * SCALE.
    let lhs: u128 = 110 * (100 * SCALE - out.amount);
    let rhs: u128 = 100 * 100 * SCALE;
    let diff = if lhs > rhs { lhs - rhs } else { rhs - lhs };
    assert!(diff <= 1_000_000, "off the curve by {}", diff);
}

#[test]
fn swap_and_offer_round_trip_does_not_profit() {
    // Exact-in, and the exact-out quote for that output, with a 0.3% fee:
    // the quoted input covers at least what was first paid in.
    let p = pool(100_000, 100_000, 50, 1_000_000, 30, PoolStatus::Active);
    let amm = InterchainMarketMaker::new(&p, 30);
    let out = amm.compute_swap(coin("foo", 1_000), &"bar".to_string()).unwrap();
    let out_units = out.amount / SCALE;
    let offer = amm
        .compute_offer_amount(coin("foo", 0), coin("bar", out_units))
        .unwrap();
    assert_eq!(offer.denom, "foo");
    assert!(
        offer.amount / SCALE >= 1_000,
        "round trip undercuts the paid input: {}",
        offer.amount
    );
}

#[test]
fn withdraw_half_the_supply_pays_half_of_every_asset() {
    let p = pool(200, 300, 50, 100, 300, PoolStatus::Active);
    let amm = InterchainMarketMaker::new(&p, p.swap_fee);
    let refunds = amm.multi_asset_withdraw(coin("pool-test", 50)).unwrap();
    assert_eq!(refunds.len(), 2);
    assert_eq!(refunds[0].denom, "foo");
    assert_eq!(refunds[0].amount, 100);
    assert_eq!(refunds[1].denom, "bar");
    assert_eq!(refunds[1].amount, 150);
}

#[test]
fn withdraw_beyond_the_supply_is_invalid() {
    let p = pool(200, 300, 50, 100, 300, PoolStatus::Active);
    let amm = InterchainMarketMaker::new(&p, p.swap_fee);
    assert_eq!(
        amm.multi_asset_withdraw(coin("pool-test", 300)).unwrap_err(),
        ContractError::InvalidWithdrawAmount
    );
    let empty = pool(200, 300, 50, 0, 300, PoolStatus::Active);
    let amm2 = InterchainMarketMaker::new(&empty, 300);
    assert_eq!(
        amm2.multi_asset_withdraw(coin("pool-test", 1)).unwrap_err(),
        ContractError::MathUndefined
    );
}

#[test]
fn single_asset_deposit_needs_an_active_pool() {
    let p = pool(100, 100, 50, 100, 0, PoolStatus::Initialized);
    let amm = InterchainMarketMaker::new(&p, 0);
    assert_eq!(
        amm.deposit_single_asset(&coin("foo", 10)).unwrap_err(),
        ContractError::PoolNotActive
    );
    let p2 = pool(100, 100, 50, 100, 0, PoolStatus::Active);
    let amm2 = InterchainMarketMaker::new(&p2, 0);
    assert_eq!(
        amm2.deposit_single_asset(&coin("baz", 10)).unwrap_err(),
        ContractError::AssetNotFound
    );
    // Full-weight asset with no fee doubles the balance and the supply.
    let p3 = InterchainLiquidityPool {
        assets: vec![
            asset(PoolSide::SOURCE, "foo", 100, 100, 18),
            asset(PoolSide::DESTINATION, "bar", 100, 0, 18),
        ],
        supply: coin("pool-test", 500),
        ..pool(0, 0, 50, 0, 0, PoolStatus::Active)
    };
    let amm3 = InterchainMarketMaker::new(&p3, 0);
    let minted = amm3.deposit_single_asset(&coin("foo", 100)).unwrap();
    assert_eq!(minted.denom, "pool-test");
    assert_eq!(minted.amount, 500);
}

#[test]
fn offer_amount_rejects_a_full_fee() {
    let p = pool(100, 100, 50, 100, 10000, PoolStatus::Active);
    let amm = InterchainMarketMaker::new(&p, 10000);
    assert_eq!(
        amm.compute_offer_amount(coin("foo", 0), coin("bar", 10)).unwrap_err(),
        ContractError::MathUndefined
    );
}

#[test]
fn minus_fees_takes_the_rate_off() {
    let p = pool(100, 100, 50, 100, 100, PoolStatus::Active);
    let amm = InterchainMarketMaker::new(&p, 100);
    // One percent off one hundred units, at raw 18-decimal scale.
    assert_eq!(amm.minus_fees(100).unwrap(), 99 * SCALE);
}
