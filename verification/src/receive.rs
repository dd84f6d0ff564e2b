//! Receiving-side handlers: each re-validates an inbound packet against
//! local state and applies the state change it carries; a success
//! acknowledgement is implied by an `Ok` outcome, an error acknowledgement
//! by an `Err`.  On any error the local state is exactly what it was.

use vstd::prelude::*;

verus! {

use crate::error::ContractError;
use crate::market::{
    Coin, GCoin, GAsset, PoolAsset, InterchainLiquidityPool, GPool, PoolStatus, PoolSide,
    InterchainMarketMaker, has_denom, denom_idx, multi_minted, law_mutation_preserves_wf,
    INIT_LP_TOKENS, MULTIPLIER,
};
use crate::state::{
    ContractState, GState, GActive, has_pool, has_pool_token, pool_idx, pool_token_idx,
    has_order, order_idx, has_active, lemma_pool_idx_is, lemma_pool_token_idx_is,
    lemma_order_idx_is,
};
use crate::types::{
    GOrder, EnvInfo, MsgMakePoolRequest, MsgTakePoolRequest, MsgCancelPoolRequest,
    MsgSingleAssetDepositRequest, MsgMakeMultiAssetDepositRequest,
    MsgTakeMultiAssetDepositRequest, MsgCancelMultiAssetDepositRequest,
    MsgMultiAssetWithdrawRequest, MsgSwapRequest, SwapMsgType, MultiAssetDepositOrder,
    OrderStatus, Config, StateChange, TokenEffect, ReceiveOutcome, IBCSwapPacketData,
    PacketPayload,
};
use crate::handlers::{validate_make_pool, make_pool_valid, first_source_idx_is};

/// The asset list after crediting the first `n` coins to their matching
/// balances, one after the other.
pub open spec fn assets_after_add(assets: Seq<GAsset>, coins: Seq<GCoin>, n: int) -> Seq<GAsset>
    decreases n,
{
    if n <= 0 {
        assets
    } else {
        let prev = assets_after_add(assets, coins, n - 1);
        let i = denom_idx(prev, coins[n - 1].denom);
        prev.update(
            i,
            GAsset {
                balance: GCoin {
                    denom: coins[n - 1].denom,
                    amount: prev[i].balance.amount + coins[n - 1].amount,
                },
                ..prev[i]
            },
        )
    }
}

/// The asset list after debiting the first `n` coins from their matching
/// balances, one after the other.
pub open spec fn assets_after_sub(assets: Seq<GAsset>, coins: Seq<GCoin>, n: int) -> Seq<GAsset>
    decreases n,
{
    if n <= 0 {
        assets
    } else {
        let prev = assets_after_sub(assets, coins, n - 1);
        let i = denom_idx(prev, coins[n - 1].denom);
        prev.update(
            i,
            GAsset {
                balance: GCoin {
                    denom: coins[n - 1].denom,
                    amount: prev[i].balance.amount - coins[n - 1].amount,
                },
                ..prev[i]
            },
        )
    }
}

/// Total amount of the first `n` coins.
pub open spec fn sum_amounts(coins: Seq<GCoin>, n: int) -> int
    decreases n,
{
    if n <= 0 {
        0
    } else {
        sum_amounts(coins, n - 1) + coins[n - 1].amount
    }
}


/// Every one of the first `n` coins can be credited in turn: its
/// denomination is present and the running balance stays within 128 bits.
pub open spec fn can_add_all(assets: Seq<GAsset>, coins: Seq<GCoin>, n: int) -> bool
    decreases n,
{
    if n <= 0 {
        true
    } else {
        let prev = assets_after_add(assets, coins, n - 1);
        &&& can_add_all(assets, coins, n - 1)
        &&& has_denom(prev, coins[n - 1].denom)
        &&& prev[denom_idx(prev, coins[n - 1].denom)].balance.amount + coins[n - 1].amount
            <= u128::MAX
    }
}

/// Every one of the first `n` coins can be debited in turn: its
/// denomination is present and the running balance covers it.
pub open spec fn can_sub_all(assets: Seq<GAsset>, coins: Seq<GCoin>, n: int) -> bool
    decreases n,
{
    if n <= 0 {
        true
    } else {
        let prev = assets_after_sub(assets, coins, n - 1);
        &&& can_sub_all(assets, coins, n - 1)
        &&& has_denom(prev, coins[n - 1].denom)
        &&& prev[denom_idx(prev, coins[n - 1].denom)].balance.amount >= coins[n - 1].amount
    }
}

/// Every one of the first `n` share coins can be burnt in turn: each
/// carries the supply denomination and the running total stays covered.
pub open spec fn can_burn_all(denom: Seq<char>, supply: int, burns: Seq<GCoin>, n: int) -> bool
    decreases n,
{
    if n <= 0 {
        true
    } else {
        &&& can_burn_all(denom, supply, burns, n - 1)
        &&& burns[n - 1].denom == denom
        &&& sum_amounts(burns, n) <= supply
    }
}

/// Running sums of the first `n` coins all fit in 128 bits.
pub open spec fn sums_fit(coins: Seq<GCoin>, n: int) -> bool
    decreases n,
{
    if n <= 0 {
        true
    } else {
        sums_fit(coins, n - 1) && sum_amounts(coins, n) <= u128::MAX
    }
}


/// Feasibility of a longer prefix carries down to every shorter one.
pub proof fn lemma_can_add_prefix(assets: Seq<GAsset>, coins: Seq<GCoin>, k: int, n: int)
    requires
        k <= n,
        can_add_all(assets, coins, n),
    ensures
        can_add_all(assets, coins, k),
    decreases n - k,
{
    if k < n {
        lemma_can_add_prefix(assets, coins, k, n - 1);
    }
}

/// Feasibility of a longer prefix carries down to every shorter one.
pub proof fn lemma_can_sub_prefix(assets: Seq<GAsset>, coins: Seq<GCoin>, k: int, n: int)
    requires
        k <= n,
        can_sub_all(assets, coins, n),
    ensures
        can_sub_all(assets, coins, k),
    decreases n - k,
{
    if k < n {
        lemma_can_sub_prefix(assets, coins, k, n - 1);
    }
}

/// Feasibility of a longer prefix carries down to every shorter one.
pub proof fn lemma_can_burn_prefix(denom: Seq<char>, supply: int, burns: Seq<GCoin>, k: int, n: int)
    requires
        k <= n,
        can_burn_all(denom, supply, burns, n),
    ensures
        can_burn_all(denom, supply, burns, k),
    decreases n - k,
{
    if k < n {
        lemma_can_burn_prefix(denom, supply, burns, k, n - 1);
    }
}

/// Fit of a longer prefix carries down to every shorter one.
pub proof fn lemma_sums_fit_prefix(coins: Seq<GCoin>, k: int, n: int)
    requires
        k <= n,
        sums_fit(coins, n),
    ensures
        sums_fit(coins, k),
    decreases n - k,
{
    if k < n {
        lemma_sums_fit_prefix(coins, k, n - 1);
    }
}

/// The coins among the first `n` that carry the denomination, in order.
pub open spec fn matching_outs(outs: Seq<GCoin>, denom: Seq<char>, n: int) -> Seq<GCoin>
    decreases n,
{
    if n <= 0 {
        Seq::empty()
    } else {
        let pre = matching_outs(outs, denom, n - 1);
        if outs[n - 1].denom == denom {
            pre.push(outs[n - 1])
        } else {
            pre
        }
    }
}

/// Mirrors a proposed pool on the receiving chain: same record, with the
/// asset sides flipped to this chain's perspective.
pub fn on_received_make_pool(
    state: &mut ContractState,
    env: &EnvInfo,
    source_channel: &String,
    msg: MsgMakePoolRequest,
    state_change: StateChange,
) -> (r: Result<ReceiveOutcome, ContractError>)
    requires
        old(state)@.wf(),
    ensures
        final(state)@.wf(),
        r is Err ==> final(state)@ == old(state)@,
        ({
            let liq = msg.liquidity@.map_values(|a: PoolAsset| a@);
            &&& (r is Ok <==> msg.liquidity@.len() == 2 && make_pool_valid(
                liq,
                msg.swap_fee as int,
            ) && (state_change.pool_id matches Some(p) && state_change.source_chain_id is Some
                && !has_pool(old(state)@.pools, p@)))
            &&& (r matches Ok(o) ==> {
                let gp = final(state)@.pools.last();
                &&& (state_change.pool_id matches Some(p) && final(state)@ == (GState {
                    pools: old(state)@.pools.push(gp),
                    ..old(state)@
                }) && gp.id == p@ && !has_pool(old(state)@.pools, p@))
                &&& gp.status == PoolStatus::Initialized
                &&& gp.supply.amount == 0
                &&& gp.assets.len() == 2
                &&& (forall|k: int|
                    0 <= k < 2 ==> (#[trigger] gp.assets[k]).balance == liq[k].balance
                        && gp.assets[k].weight == liq[k].weight && gp.assets[k].decimal
                        == liq[k].decimal && gp.assets[k].side != liq[k].side)
                &&& gp.counter_party_channel == source_channel@
                &&& gp.destination_chain_id == env.chain_id@
                &&& o.effects@.len() == 0
            })
        }),
{
    match validate_make_pool(&msg) {
        Ok(_) => {},
        Err(e) => {
            return Err(e);
        },
    }
    let pool_id: String = match &state_change.pool_id {
        Some(p) => p.clone(),
        None => {
            return Err(ContractError::MalformedPacket);
        },
    };
    let source_chain_id: String = match &state_change.source_chain_id {
        Some(c) => c.clone(),
        None => {
            return Err(ContractError::MalformedPacket);
        },
    };
    match state.find_pool_index(&pool_id) {
        Some(_) => {
            return Err(ContractError::PoolAlreadyExists);
        },
        None => {},
    }
    let mut assets: Vec<PoolAsset> = Vec::new();
    let mut k: usize = 0;
    while k < 2
        invariant
            msg.liquidity@.len() == 2,
            k <= 2,
            assets@.len() == k,
            forall|j: int|
                0 <= j < k ==> {
                    let got = (#[trigger] assets@[j])@;
                    let want = msg.liquidity@[j]@;
                    &&& got.balance == want.balance
                    &&& got.weight == want.weight
                    &&& got.decimal == want.decimal
                    &&& got.side != want.side
                },
        decreases 2 - k,
    {
        let mut a = msg.liquidity[k].dup();
        a.side = match a.side {
            PoolSide::SOURCE => PoolSide::DESTINATION,
            PoolSide::DESTINATION => PoolSide::SOURCE,
        };
        assets.push(a);
        k = k + 1;
    }
    let pool = InterchainLiquidityPool {
        assets,
        counter_party_channel: source_channel.clone(),
        counter_party_port: msg.source_port.clone(),
        destination_chain_id: env.chain_id.clone(),
        destination_creator: msg.counter_party_creator.clone(),
        id: pool_id.clone(),
        source_chain_id,
        source_creator: msg.creator.clone(),
        status: PoolStatus::Initialized,
        supply: Coin { denom: pool_id, amount: 0 },
        swap_fee: msg.swap_fee,
        pool_price: 0,
    };
    proof {
        assert(crate::market::sum_weights(pool@.assets) == 100) by {
            let s2 = pool@.assets;
            let s1 = s2.drop_last();
            let s0 = s1.drop_last();
            assert(s0.len() == 0);
            assert(crate::market::sum_weights(s0) == 0);
            assert(s1.last() == s2[0] && s1.len() == 1);
            assert(crate::market::sum_weights(s1) == s2[0].weight);
            assert(crate::market::sum_weights(s2) == s2[0].weight + s2[1].weight);
        }
        assert(pool@.wf());
    }
    state.insert_pool(pool);
    Ok(ReceiveOutcome { effects: Vec::new() })
}

/// Activates a proposed pool on packet receipt: mints the first shares for
/// the counterparty creator, credits the supply, and flips the status to
/// `Active`.
pub fn on_received_take_pool(
    state: &mut ContractState,
    env: &EnvInfo,
    msg: MsgTakePoolRequest,
) -> (r: Result<ReceiveOutcome, ContractError>)
    requires
        old(state)@.wf(),
    ensures
        final(state)@.wf(),
        r is Err ==> final(state)@ == old(state)@,
        !has_pool(old(state)@.pools, msg.pool_id@) ==> r == Err::<ReceiveOutcome, ContractError>(
            ContractError::PoolNotFound,
        ),
        ({
            let pools = old(state)@.pools;
            let pid = msg.pool_id@;
            has_pool(pools, pid) ==> {
                let i = pool_idx(pools, pid);
                let p = pools[i];
                let toks = seq![p.assets[0].balance, p.assets[1].balance];
                let shares = if p.supply.amount == 0 {
                    INIT_LP_TOKENS * MULTIPLIER
                } else {
                    multi_minted(p.assets, toks, p.supply.amount)
                };
                // A take is re-validated on receipt: only a pool still
                // awaiting its take may be activated; a replayed take on an
                // active pool mints nothing.
                &&& (r == Err::<ReceiveOutcome, ContractError>(ContractError::InvalidStatus)
                    <==> p.status != PoolStatus::Initialized)
                &&& (p.status == PoolStatus::Initialized ==> {
                    &&& (p.assets.len() != 2 ==> r == Err::<ReceiveOutcome, ContractError>(
                        ContractError::InvalidAssetInput,
                    ))
                    &&& (p.assets.len() == 2 && !has_pool_token(old(state)@.pool_tokens, pid)
                        ==> r == Err::<ReceiveOutcome, ContractError>(
                        ContractError::LpTokenNotInitialized,
                    ))
                    &&& (r is Ok <==> p.assets.len() == 2 && has_pool_token(
                        old(state)@.pool_tokens,
                        pid,
                    ) && (p.supply.amount == 0 || (crate::market::multi_ok(p.assets, toks)
                        && crate::market::multi_fits(p.assets, toks, p.supply.amount)))
                        && p.supply.amount + shares <= u128::MAX)
                })
                &&& (r matches Ok(o) ==> {
                    &&& final(state)@ == (GState {
                        pools: pools.update(
                            i,
                            GPool {
                                supply: GCoin {
                                    denom: p.supply.denom,
                                    amount: p.supply.amount + shares,
                                },
                                status: PoolStatus::Active,
                                ..p
                            },
                        ),
                        ..old(state)@
                    })
                    &&& o.effects@.len() == 1
                    &&& (o.effects@[0] matches TokenEffect::MintLp { recipient, lp_token, amount }
                        && recipient@ == msg.counter_creator@ && amount == shares)
                })
            }
        }),
{
    let i: usize = match state.find_pool_index(&msg.pool_id) {
        Some(i) => i,
        None => {
            return Err(ContractError::PoolNotFound);
        },
    };
    proof {
        lemma_pool_idx_is(state@.pools, msg.pool_id@, i as int);
        assert(state@.pools[i as int].wf());
    }
    if !matches!(state.pools[i].status, PoolStatus::Initialized) {
        return Err(ContractError::InvalidStatus);
    }
    if state.pools[i].assets.len() != 2 {
        return Err(ContractError::InvalidAssetInput);
    }
    let ti: usize = match state.find_pool_token_index(&msg.pool_id) {
        Some(t) => t,
        None => {
            return Err(ContractError::LpTokenNotInitialized);
        },
    };
    let lp_token = state.pool_tokens[ti].address.clone();
    let mut tokens: Vec<Coin> = Vec::new();
    tokens.push(state.pools[i].assets[0].balance.dup());
    tokens.push(state.pools[i].assets[1].balance.dup());
    proof {
        let gp = state@.pools[i as int];
        assert(tokens@.map_values(|c: Coin| c@) =~= seq![
            gp.assets[0].balance,
            gp.assets[1].balance,
        ]);
    }
    let fee_rate: u32 = state.pools[i].swap_fee;
    let amm = InterchainMarketMaker::new(&state.pools[i], fee_rate);
    let shares: u128 = match amm.deposit_multi_asset(&tokens) {
        Ok(t) => t.0,
        Err(e) => {
            return Err(e);
        },
    };
    let mut p2 = state.pools[i].dup();
    match p2.add_supply(Coin { denom: msg.pool_id.clone(), amount: shares }) {
        Ok(_) => {},
        Err(e) => {
            return Err(e);
        },
    }
    p2.status = PoolStatus::Active;
    proof {
        assert(p2@.wf()) by {
            let before = old(state)@.pools[i as int];
            assert(p2@.assets == before.assets);
            assert(crate::market::sum_weights(p2@.assets) == 100);
        }
    }
    state.set_pool_at(i, p2);
    let mut effects: Vec<TokenEffect> = Vec::new();
    effects.push(
        TokenEffect::MintLp { recipient: msg.counter_creator.clone(), lp_token, amount: shares },
    );
    Ok(ReceiveOutcome { effects })
}

/// Removes a proposed pool on cancellation receipt.
pub fn on_received_cancel_pool(
    state: &mut ContractState,
    env: &EnvInfo,
    msg: MsgCancelPoolRequest,
) -> (r: Result<ReceiveOutcome, ContractError>)
    requires
        old(state)@.wf(),
    ensures
        final(state)@.wf(),
        r is Err ==> final(state)@ == old(state)@,
        r is Ok <==> has_pool(old(state)@.pools, msg.pool_id@) && old(state)@.pools[pool_idx(
            old(state)@.pools,
            msg.pool_id@,
        )].status == PoolStatus::Initialized,
        !has_pool(old(state)@.pools, msg.pool_id@) ==> r == Err::<ReceiveOutcome, ContractError>(
            ContractError::PoolNotFound,
        ),
        has_pool(old(state)@.pools, msg.pool_id@) && old(state)@.pools[pool_idx(
            old(state)@.pools,
            msg.pool_id@,
        )].status != PoolStatus::Initialized ==> r == Err::<ReceiveOutcome, ContractError>(
            ContractError::InvalidStatus,
        ),
        r matches Ok(o) ==> final(state)@ == (GState {
            pools: old(state)@.pools.remove(pool_idx(old(state)@.pools, msg.pool_id@)),
            ..old(state)@
        }) && o.effects@.len() == 0,
{
    let i: usize = match state.find_pool_index(&msg.pool_id) {
        Some(i) => i,
        None => {
            return Err(ContractError::PoolNotFound);
        },
    };
    proof {
        lemma_pool_idx_is(state@.pools, msg.pool_id@, i as int);
    }
    // Cancellation is re-validated on receipt: only a pool still awaiting
    // its take may be cancelled; an active pool stays.
    if !matches!(state.pools[i].status, PoolStatus::Initialized) {
        return Err(ContractError::InvalidStatus);
    }
    state.remove_pool_at(i);
    Ok(ReceiveOutcome { effects: Vec::new() })
}

/// Applies a single-sided deposit on receipt: credits the deposited asset
/// and the precomputed share mint to the mirrored pool.
pub fn on_received_single_deposit(
    state: &mut ContractState,
    env: &EnvInfo,
    msg: MsgSingleAssetDepositRequest,
    state_change: StateChange,
) -> (r: Result<ReceiveOutcome, ContractError>)
    requires
        old(state)@.wf(),
    ensures
        final(state)@.wf(),
        r is Err ==> final(state)@ == old(state)@,
        ({
            let pools = old(state)@.pools;
            let pid = msg.pool_id@;
            &&& (msg.token@.amount > 0 && !has_pool(pools, pid) ==> r == Err::<
                ReceiveOutcome,
                ContractError,
            >(ContractError::PoolNotFound))
            &&& (r is Ok <==> msg.token@.amount > 0 && has_pool(pools, pid)
                && state_change.pool_tokens@.len() >= 1 && {
                let p = pools[pool_idx(pools, pid)];
                let shares = (state_change.pool_tokens@[0])@;
                &&& has_denom(p.assets, msg.token@.denom)
                &&& p.assets[denom_idx(p.assets, msg.token@.denom)].balance.amount
                    + msg.token@.amount <= u128::MAX
                &&& shares.denom == p.supply.denom
                &&& p.supply.amount + shares.amount <= u128::MAX
            })
            &&& (r matches Ok(o) ==> has_pool(pools, pid) && {
                let i = pool_idx(pools, pid);
                let p = pools[i];
                let shares = (state_change.pool_tokens@[0])@;
                &&& state_change.pool_tokens@.len() >= 1
                &&& has_denom(p.assets, msg.token@.denom)
                &&& shares.denom == p.supply.denom
                &&& final(state)@ == (GState {
                    pools: pools.update(
                        i,
                        GPool {
                            assets: assets_after_add(p.assets, seq![msg.token@], 1),
                            supply: GCoin {
                                denom: p.supply.denom,
                                amount: p.supply.amount + shares.amount,
                            },
                            ..p
                        },
                    ),
                    ..old(state)@
                })
                &&& o.effects@.len() == 0
            })
        }),
{
    if msg.token.amount == 0 {
        return Err(ContractError::InvalidAmount);
    }
    let i: usize = match state.find_pool_index(&msg.pool_id) {
        Some(i) => i,
        None => {
            return Err(ContractError::PoolNotFound);
        },
    };
    proof {
        lemma_pool_idx_is(state@.pools, msg.pool_id@, i as int);
        assert(state@.pools[i as int].wf());
    }
    if state_change.pool_tokens.len() == 0 {
        return Err(ContractError::MalformedPacket);
    }
    let shares: Coin = state_change.pool_tokens[0].dup();
    let mut p2 = state.pools[i].dup();
    let ghost before = p2@;
    match p2.add_asset(msg.token.dup()) {
        Ok(_) => {},
        Err(e) => {
            return Err(e);
        },
    }
    proof {
        law_mutation_preserves_wf(
            before,
            p2@,
            denom_idx(before.assets, msg.token@.denom),
            before.assets[denom_idx(before.assets, msg.token@.denom)].balance.amount
                + msg.token@.amount,
        );
        assert(assets_after_add(before.assets, seq![msg.token@], 0) == before.assets);
        assert(seq![msg.token@][0] == msg.token@);
        assert(p2@.assets =~= assets_after_add(before.assets, seq![msg.token@], 1));
    }
    match p2.add_supply(shares) {
        Ok(_) => {},
        Err(e) => {
            return Err(e);
        },
    }
    proof {
        assert(p2@.wf()) by {
            assert(crate::market::sum_weights(p2@.assets) == 100);
        }
    }
    state.set_pool_at(i, p2);
    Ok(ReceiveOutcome { effects: Vec::new() })
}

/// Mirrors a newly made deposit order on the receiving chain, under the
/// same order id, and enters it into the active-order index.  The local
/// id generator is advanced past the mirrored id so it stays monotonic.
pub fn on_received_make_multi_deposit(
    state: &mut ContractState,
    env: &EnvInfo,
    msg: MsgMakeMultiAssetDepositRequest,
    state_change: StateChange,
) -> (r: Result<ReceiveOutcome, ContractError>)
    requires
        old(state)@.wf(),
        old(state)@.counter_wf(),
    ensures
        final(state)@.wf(),
        final(state)@.counter_wf(),
        r is Err ==> final(state)@ == old(state)@,
        ({
            let pools = old(state)@.pools;
            let pid = msg.pool_id@;
            &&& (r is Ok <==> has_pool(pools, pid) && msg.deposits@.len() == 2 && (
            state_change.multi_deposit_order_id matches Some(oid) && !has_order(
                old(state)@.orders,
                pid,
                oid as int,
            ) && !has_active(
                old(state)@.active_orders,
                msg.deposits@[0].sender@,
                pid,
                msg.deposits@[1].sender@,
            ) && old(state)@.config.counter < u64::MAX))
            &&& (r matches Ok(o) ==> has_pool(pools, pid) && msg.deposits@.len() == 2 && (
            state_change.multi_deposit_order_id matches Some(oid) && {
                let go = final(state)@.orders.last();
                let bumped = old(state)@.config.counter + 1;
                &&& !has_order(old(state)@.orders, pid, oid as int)
                &&& !has_active(
                    old(state)@.active_orders,
                    msg.deposits@[0].sender@,
                    pid,
                    msg.deposits@[1].sender@,
                )
                &&& go.id == oid as int
                &&& go.pool_id == pid
                &&& go.status == OrderStatus::Pending
                &&& go.source_maker == msg.deposits@[0].sender@
                &&& go.destination_taker == msg.deposits@[1].sender@
                &&& go.deposits == seq![msg.deposits@[0].balance@, msg.deposits@[1].balance@]
                &&& go.chain_id == msg.chain_id@
                &&& go.created_at == env.block_height as int
                &&& final(state)@.orders == old(state)@.orders.push(go)
                &&& final(state)@.active_orders == old(state)@.active_orders.push(
                    GActive {
                        source_maker: go.source_maker,
                        pool_id: pid,
                        destination_taker: go.destination_taker,
                        order_id: oid as int,
                    },
                )
                &&& final(state)@.pools == old(state)@.pools
                &&& final(state)@.pool_tokens == old(state)@.pool_tokens
                &&& final(state)@.temp == old(state)@.temp
                // The local id generator is advanced past the mirrored id
                // so it stays monotonic.
                &&& final(state)@.config == (Config {
                    counter: if oid as int > bumped {
                        oid
                    } else {
                        bumped as u64
                    },
                    token_code_id: old(state)@.config.token_code_id,
                })
                &&& o.effects@.len() == 0
            }))
        }),
{
    let i: usize = match state.find_pool_index(&msg.pool_id) {
        Some(i) => i,
        None => {
            return Err(ContractError::PoolNotFound);
        },
    };
    if msg.deposits.len() != 2 {
        return Err(ContractError::InvalidAssetInput);
    }
    let oid: u64 = match &state_change.multi_deposit_order_id {
        Some(o) => *o,
        None => {
            return Err(ContractError::MalformedPacket);
        },
    };
    match state.find_order_index(&msg.pool_id, oid) {
        Some(_) => {
            return Err(ContractError::ErrPreviousOrderNotCompleted);
        },
        None => {},
    }
    match state.find_active_index(
        &msg.deposits[0].sender,
        &msg.pool_id,
        &msg.deposits[1].sender,
    ) {
        Some(_) => {
            return Err(ContractError::ErrPreviousOrderNotCompleted);
        },
        None => {},
    }
    if state.config.counter == u64::MAX {
        return Err(ContractError::Overflow);
    }
    let bumped: u64 = state.config.counter + 1;
    let ncounter: u64 = if oid > bumped {
        oid
    } else {
        bumped
    };
    state.config.counter = ncounter;
    proof {
        assert(state@.pools == old(state)@.pools && state@.pool_tokens == old(
            state,
        )@.pool_tokens && state@.orders == old(state)@.orders && state@.active_orders == old(
            state,
        )@.active_orders);
        assert(state@.wf());
    }
    let mut deposits: Vec<Coin> = Vec::new();
    deposits.push(msg.deposits[0].balance.dup());
    deposits.push(msg.deposits[1].balance.dup());
    proof {
        assert(deposits@.map_values(|c: Coin| c@) =~= seq![
            msg.deposits@[0].balance@,
            msg.deposits@[1].balance@,
        ]);
    }
    let order = MultiAssetDepositOrder {
        id: oid,
        chain_id: msg.chain_id.clone(),
        pool_id: msg.pool_id.clone(),
        source_maker: msg.deposits[0].sender.clone(),
        destination_taker: msg.deposits[1].sender.clone(),
        deposits,
        status: OrderStatus::Pending,
        created_at: env.block_height,
    };
    state.add_pending_order(order);
    proof {
        assert forall|k: int|
            0 <= k < state@.orders.len() implies (#[trigger] state@.orders[k]).id
            <= state@.config.counter as int by {
            if k < old(state)@.orders.len() {
                assert(state@.orders[k] == old(state)@.orders[k]);
            }
        }
    }
    Ok(ReceiveOutcome { effects: Vec::new() })
}

/// Completes a pending order on take receipt: mints the precomputed shares
/// to the maker, credits the deposits and the supply to the pool, marks
/// the order complete and drops its active-order index entry.  An order
/// already terminal is rejected, so a replayed take mints nothing.
pub fn on_received_take_multi_deposit(
    state: &mut ContractState,
    env: &EnvInfo,
    msg: MsgTakeMultiAssetDepositRequest,
    state_change: StateChange,
) -> (r: Result<ReceiveOutcome, ContractError>)
    requires
        old(state)@.wf(),
        old(state)@.counter_wf(),
    ensures
        final(state)@.wf(),
        final(state)@.counter_wf(),
        r is Err ==> final(state)@ == old(state)@,
        ({
            let pools = old(state)@.pools;
            let orders = old(state)@.orders;
            let pid = msg.pool_id@;
            &&& (!has_pool(pools, pid) ==> r == Err::<ReceiveOutcome, ContractError>(
                ContractError::PoolNotFound,
            ))
            &&& (has_pool(pools, pid) && !has_order(orders, pid, msg.order_id as int) ==> r
                == Err::<ReceiveOutcome, ContractError>(ContractError::ErrOrderNotFound))
            &&& (has_pool(pools, pid) && has_order(orders, pid, msg.order_id as int) ==> {
                let oi = order_idx(orders, pid, msg.order_id as int);
                let o = orders[oi];
                &&& (o.status != OrderStatus::Pending ==> r == Err::<
                    ReceiveOutcome,
                    ContractError,
                >(ContractError::ErrOrderAlreadyCompleted))
                &&& (r is Ok <==> o.status == OrderStatus::Pending && {
                    let i = pool_idx(pools, pid);
                    let p = pools[i];
                    let gtokens = state_change.pool_tokens@.map_values(|c: Coin| c@);
                    let shares = sum_amounts(gtokens, gtokens.len() as int);
                    &&& sums_fit(gtokens, gtokens.len() as int)
                    &&& has_pool_token(old(state)@.pool_tokens, pid)
                    &&& p.supply.amount + shares <= u128::MAX
                    &&& can_add_all(p.assets, o.deposits, o.deposits.len() as int)
                })
                &&& (r matches Ok(out) ==> {
                    let i = pool_idx(pools, pid);
                    let p = pools[i];
                    let shares = sum_amounts(
                        state_change.pool_tokens@.map_values(|c: Coin| c@),
                        state_change.pool_tokens@.len() as int,
                    );
                    &&& o.status == OrderStatus::Pending
                    &&& final(state)@.orders == orders.update(
                        oi,
                        GOrder { status: OrderStatus::Complete, ..o },
                    )
                    &&& final(state)@.active_orders == old(state)@.active_orders.remove(
                        crate::state::active_idx(
                            old(state)@.active_orders,
                            o.source_maker,
                            o.pool_id,
                            o.destination_taker,
                        ),
                    )
                    &&& final(state)@.pools == pools.update(
                        i,
                        GPool {
                            assets: assets_after_add(p.assets, o.deposits, o.deposits.len() as int),
                            supply: GCoin {
                                denom: p.supply.denom,
                                amount: p.supply.amount + shares,
                            },
                            ..p
                        },
                    )
                    &&& out.effects@.len() == 1
                    &&& (out.effects@[0] matches TokenEffect::MintLp { recipient, lp_token, amount }
                        && recipient@ == o.source_maker && amount == shares)
                })
            })
        }),
{
    let i: usize = match state.find_pool_index(&msg.pool_id) {
        Some(i) => i,
        None => {
            return Err(ContractError::PoolNotFound);
        },
    };
    proof {
        lemma_pool_idx_is(state@.pools, msg.pool_id@, i as int);
        assert(state@.pools[i as int].wf());
    }
    let oi: usize = match state.find_order_index(&msg.pool_id, msg.order_id) {
        Some(oi) => oi,
        None => {
            return Err(ContractError::ErrOrderNotFound);
        },
    };
    proof {
        lemma_order_idx_is(state@.orders, msg.pool_id@, msg.order_id as int, oi as int);
    }
    if !matches!(state.orders[oi].status, OrderStatus::Pending) {
        return Err(ContractError::ErrOrderAlreadyCompleted);
    }
    let ghost gtokens = state_change.pool_tokens@.map_values(|c: Coin| c@);
    let mut shares: u128 = 0;
    let mut k: usize = 0;
    let n: usize = state_change.pool_tokens.len();
    while k < n
        invariant
            n == state_change.pool_tokens@.len(),
            gtokens == state_change.pool_tokens@.map_values(|c: Coin| c@),
            k <= n,
            state@ == old(state)@,
            old(state)@.wf(),
            old(state)@.counter_wf(),
            has_pool(old(state)@.pools, msg.pool_id@),
            has_order(old(state)@.orders, msg.pool_id@, msg.order_id as int),
            oi < old(state)@.orders.len(),
            oi as int == order_idx(old(state)@.orders, msg.pool_id@, msg.order_id as int),
            old(state)@.orders[oi as int].status == OrderStatus::Pending,
            shares == sum_amounts(gtokens, k as int),
            sums_fit(gtokens, k as int),
        decreases n - k,
    {
        let amt: u128 = state_change.pool_tokens[k].amount;
        if amt > u128::MAX - shares {
            proof {
                let ghost kk = k as int;
                assert(!sums_fit(gtokens, n as int)) by {
                    if sums_fit(gtokens, n as int) {
                        lemma_sums_fit_prefix(gtokens, kk + 1, n as int);
                    }
                }
            }
            return Err(ContractError::Overflow);
        }
        shares = shares + amt;
        k = k + 1;
    }
    let ti: usize = match state.find_pool_token_index(&msg.pool_id) {
        Some(t) => t,
        None => {
            return Err(ContractError::LpTokenNotInitialized);
        },
    };
    let lp_token = state.pool_tokens[ti].address.clone();
    let order = state.orders[oi].dup();
    let mut p2 = state.pools[i].dup();
    proof {
        assert(p2@.supply.denom == msg.pool_id@);
    }
    match p2.add_supply(Coin { denom: msg.pool_id.clone(), amount: shares }) {
        Ok(_) => {},
        Err(e) => {
            return Err(e);
        },
    }
    let ghost base_assets = old(state)@.pools[i as int].assets;
    let dn: usize = order.deposits.len();
    let mut d: usize = 0;
    while d < dn
        invariant
            dn == order.deposits@.len(),
            d <= dn,
            state@ == old(state)@,
            old(state)@.wf(),
            old(state)@.counter_wf(),
            has_pool(old(state)@.pools, msg.pool_id@),
            has_order(old(state)@.orders, msg.pool_id@, msg.order_id as int),
            oi < old(state)@.orders.len(),
            oi as int == order_idx(old(state)@.orders, msg.pool_id@, msg.order_id as int),
            old(state)@.orders[oi as int].status == OrderStatus::Pending,
            order@ == old(state)@.orders[oi as int],
            i < old(state)@.pools.len(),
            i as int == pool_idx(old(state)@.pools, msg.pool_id@),
            base_assets == old(state)@.pools[i as int].assets,
            can_add_all(base_assets, order@.deposits, d as int),
            n == state_change.pool_tokens@.len(),
            gtokens == state_change.pool_tokens@.map_values(|c: Coin| c@),
            sums_fit(gtokens, n as int),
            shares == sum_amounts(gtokens, n as int),
            has_pool_token(old(state)@.pool_tokens, msg.pool_id@),
            old(state)@.pools[i as int].supply.amount + shares <= u128::MAX,
            p2@ == (GPool {
                assets: assets_after_add(
                    old(state)@.pools[i as int].assets,
                    order@.deposits,
                    d as int,
                ),
                supply: GCoin {
                    denom: old(state)@.pools[i as int].supply.denom,
                    amount: old(state)@.pools[i as int].supply.amount + shares,
                },
                ..old(state)@.pools[i as int]
            }),
            p2@.wf(),
        decreases dn - d,
    {
        let ghost before = p2@;
        let tok = order.deposits[d].dup();
        let ghost gtok = tok@;
        match p2.add_asset(tok) {
            Ok(_) => {},
            Err(e) => {
                proof {
                    let ghost dd = d as int;
                    assert(!can_add_all(base_assets, order@.deposits, dn as int)) by {
                        if can_add_all(base_assets, order@.deposits, dn as int) {
                            lemma_can_add_prefix(base_assets, order@.deposits, dd + 1, dn as int);
                        }
                    }
                }
                return Err(e);
            },
        }
        proof {
            law_mutation_preserves_wf(
                before,
                p2@,
                denom_idx(before.assets, gtok.denom),
                before.assets[denom_idx(before.assets, gtok.denom)].balance.amount + gtok.amount,
            );
            assert(order@.deposits[d as int] == gtok);
            assert(can_add_all(base_assets, order@.deposits, d as int + 1));
            assert(p2@.assets =~= assets_after_add(
                old(state)@.pools[i as int].assets,
                order@.deposits,
                d as int + 1,
            ));
        }
        d = d + 1;
    }
    state.set_pool_at(i, p2);
    state.finish_order_at(oi, false);
    proof {
        assert forall|k2: int|
            0 <= k2 < state@.orders.len() implies (#[trigger] state@.orders[k2]).id
            <= state@.config.counter as int by {
            assert(state@.orders[k2].id == old(state)@.orders[k2].id);
        }
    }
    let mut effects: Vec<TokenEffect> = Vec::new();
    effects.push(
        TokenEffect::MintLp { recipient: order.source_maker, lp_token, amount: shares },
    );
    Ok(ReceiveOutcome { effects })
}

/// Cancels a pending order on cancellation receipt: marks it cancelled and
/// drops its active-order index entry.
pub fn on_received_cancel_multi_deposit(
    state: &mut ContractState,
    env: &EnvInfo,
    msg: MsgCancelMultiAssetDepositRequest,
    state_change: StateChange,
) -> (r: Result<ReceiveOutcome, ContractError>)
    requires
        old(state)@.wf(),
        old(state)@.counter_wf(),
    ensures
        final(state)@.wf(),
        final(state)@.counter_wf(),
        r is Err ==> final(state)@ == old(state)@,
        ({
            let pools = old(state)@.pools;
            let orders = old(state)@.orders;
            let pid = msg.pool_id@;
            &&& (!has_pool(pools, pid) ==> r == Err::<ReceiveOutcome, ContractError>(
                ContractError::PoolNotFound,
            ))
            &&& (has_pool(pools, pid) && !has_order(orders, pid, msg.order_id as int) ==> r
                == Err::<ReceiveOutcome, ContractError>(ContractError::ErrOrderNotFound))
            &&& (has_pool(pools, pid) && has_order(orders, pid, msg.order_id as int) ==> {
                let oi = order_idx(orders, pid, msg.order_id as int);
                let o = orders[oi];
                &&& (r is Ok <==> o.status == OrderStatus::Pending)
                &&& (o.status != OrderStatus::Pending ==> r == Err::<
                    ReceiveOutcome,
                    ContractError,
                >(ContractError::ErrOrderAlreadyCompleted))
                &&& (r matches Ok(out) ==> {
                    &&& final(state)@.orders == orders.update(
                        oi,
                        GOrder { status: OrderStatus::Cancelled, ..o },
                    )
                    &&& final(state)@.active_orders == old(state)@.active_orders.remove(
                        crate::state::active_idx(
                            old(state)@.active_orders,
                            o.source_maker,
                            o.pool_id,
                            o.destination_taker,
                        ),
                    )
                    &&& final(state)@.pools == old(state)@.pools
                    &&& out.effects@.len() == 0
                })
            })
        }),
{
    match state.find_pool_index(&msg.pool_id) {
        Some(_) => {},
        None => {
            return Err(ContractError::PoolNotFound);
        },
    }
    let oi: usize = match state.find_order_index(&msg.pool_id, msg.order_id) {
        Some(oi) => oi,
        None => {
            return Err(ContractError::ErrOrderNotFound);
        },
    };
    proof {
        lemma_order_idx_is(state@.orders, msg.pool_id@, msg.order_id as int, oi as int);
    }
    if !matches!(state.orders[oi].status, OrderStatus::Pending) {
        return Err(ContractError::ErrOrderAlreadyCompleted);
    }
    state.finish_order_at(oi, true);
    proof {
        assert forall|k2: int|
            0 <= k2 < state@.orders.len() implies (#[trigger] state@.orders[k2]).id
            <= state@.config.counter as int by {
            assert(state@.orders[k2].id == old(state)@.orders[k2].id);
        }
    }
    Ok(ReceiveOutcome { effects: Vec::new() })
}

/// Applies a withdrawal on receipt: debits the carried out-tokens from the
/// asset balances, burns the carried share tokens from the supply, and
/// releases this chain's leg to the counterparty receiver.
pub fn on_received_multi_withdraw(
    state: &mut ContractState,
    env: &EnvInfo,
    msg: MsgMultiAssetWithdrawRequest,
    state_change: StateChange,
) -> (r: Result<ReceiveOutcome, ContractError>)
    requires
        old(state)@.wf(),
    ensures
        final(state)@.wf(),
        r is Err ==> final(state)@ == old(state)@,
        !has_pool(old(state)@.pools, msg.pool_id@) ==> r == Err::<ReceiveOutcome, ContractError>(
            ContractError::PoolNotFound,
        ),
        ({
            let pools = old(state)@.pools;
            let pid = msg.pool_id@;
            let outs = state_change.out_tokens@.map_values(|c: Coin| c@);
            let burns = state_change.pool_tokens@.map_values(|c: Coin| c@);
            &&& (r is Ok <==> has_pool(pools, pid) && {
                let p = pools[pool_idx(pools, pid)];
                &&& (exists|s: int|
                    0 <= s < p.assets.len() && (#[trigger] p.assets[s]).side == PoolSide::SOURCE)
                &&& can_sub_all(p.assets, outs, outs.len() as int)
                &&& can_burn_all(p.supply.denom, p.supply.amount, burns, burns.len() as int)
            })
            &&& (has_pool(pools, pid) ==> (r matches Ok(out) ==> {
                let i = pool_idx(pools, pid);
                let p = pools[i];
                &&& final(state)@ == (GState {
                    pools: pools.update(
                        i,
                        GPool {
                            assets: assets_after_sub(p.assets, outs, outs.len() as int),
                            supply: GCoin {
                                denom: p.supply.denom,
                                amount: p.supply.amount - sum_amounts(burns, burns.len() as int),
                            },
                            ..p
                        },
                    ),
                    ..old(state)@
                })
                // This chain's leg of the payout: one transfer to the
                // counterparty receiver for every out-token denominated by
                // the source-side asset, in packet order.
                &&& (forall|s: int|
                    #[trigger] first_source_idx_is(p.assets, s) ==> {
                        let m = matching_outs(outs, p.assets[s].balance.denom, outs.len() as int);
                        &&& out.effects@.len() == m.len()
                        &&& forall|k: int|
                            0 <= k < m.len() ==> ((#[trigger] out.effects@[k]) matches
                                TokenEffect::SendCoin { recipient, coin } && recipient@
                                == msg.counterparty_receiver@ && coin@ == m[k])
                    })
            }))
        }),
{
    let i: usize = match state.find_pool_index(&msg.pool_id) {
        Some(i) => i,
        None => {
            return Err(ContractError::PoolNotFound);
        },
    };
    proof {
        lemma_pool_idx_is(state@.pools, msg.pool_id@, i as int);
        assert(state@.pools[i as int].wf());
    }
    let ghost gp = state@.pools[i as int];
    let src_asset = match state.pools[i].find_asset_by_side(PoolSide::SOURCE) {
        Ok(a) => a,
        Err(e) => {
            return Err(e);
        },
    };
    let ghost srcidx: int = choose|s: int|
        0 <= s < gp.assets.len() && (#[trigger] gp.assets[s]).side == PoolSide::SOURCE && gp.assets[
            s] == src_asset@ && (forall|j: int|
            0 <= j < s ==> (#[trigger] gp.assets[j]).side != PoolSide::SOURCE);
    proof {
        assert(first_source_idx_is(gp.assets, srcidx));
    }
    let ghost srcdenom = gp.assets[srcidx].balance.denom;
    let mut effects: Vec<TokenEffect> = Vec::new();
    let mut p2 = state.pools[i].dup();
    let ghost outs = state_change.out_tokens@.map_values(|c: Coin| c@);
    let n: usize = state_change.out_tokens.len();
    let mut k: usize = 0;
    while k < n
        invariant
            n == state_change.out_tokens@.len(),
            outs == state_change.out_tokens@.map_values(|c: Coin| c@),
            k <= n,
            state@ == old(state)@,
            old(state)@.wf(),
            has_pool(old(state)@.pools, msg.pool_id@),
            i < old(state)@.pools.len(),
            i as int == pool_idx(old(state)@.pools, msg.pool_id@),
            gp == old(state)@.pools[i as int],
            first_source_idx_is(gp.assets, srcidx),
            0 <= srcidx < gp.assets.len(),
            srcdenom == gp.assets[srcidx].balance.denom,
            srcdenom == src_asset@.balance.denom,
            can_sub_all(gp.assets, outs, k as int),
            effects@.len() == matching_outs(outs, srcdenom, k as int).len(),
            forall|j: int|
                0 <= j < effects@.len() ==> ((#[trigger] effects@[j]) matches
                    TokenEffect::SendCoin { recipient, coin } && recipient@
                    == msg.counterparty_receiver@ && coin@ == matching_outs(
                    outs,
                    srcdenom,
                    k as int,
                )[j]),
            p2@ == (GPool {
                assets: assets_after_sub(old(state)@.pools[i as int].assets, outs, k as int),
                ..old(state)@.pools[i as int]
            }),
            p2@.wf(),
        decreases n - k,
    {
        let ghost kk = k as int;
        let tok = state_change.out_tokens[k].dup();
        if tok.denom == src_asset.balance.denom {
            effects.push(
                TokenEffect::SendCoin {
                    recipient: msg.counterparty_receiver.clone(),
                    coin: tok.dup(),
                },
            );
        }
        proof {
            assert(outs[kk] == tok@);
            assert(matching_outs(outs, srcdenom, kk + 1) == if outs[kk].denom == srcdenom {
                matching_outs(outs, srcdenom, kk).push(outs[kk])
            } else {
                matching_outs(outs, srcdenom, kk)
            });
        }
        let ghost before = p2@;
        let ghost gtok = tok@;
        match p2.subtract_asset(tok) {
            Ok(_) => {},
            Err(e) => {
                proof {
                    assert(!can_sub_all(gp.assets, outs, n as int)) by {
                        if can_sub_all(gp.assets, outs, n as int) {
                            lemma_can_sub_prefix(gp.assets, outs, kk + 1, n as int);
                        }
                    }
                }
                return Err(e);
            },
        }
        proof {
            law_mutation_preserves_wf(
                before,
                p2@,
                denom_idx(before.assets, gtok.denom),
                before.assets[denom_idx(before.assets, gtok.denom)].balance.amount - gtok.amount,
            );
            assert(can_sub_all(gp.assets, outs, kk + 1));
            assert(p2@.assets =~= assets_after_sub(
                old(state)@.pools[i as int].assets,
                outs,
                kk + 1,
            ));
        }
        k = k + 1;
    }
    let ghost burns = state_change.pool_tokens@.map_values(|c: Coin| c@);
    let bn: usize = state_change.pool_tokens.len();
    let mut b: usize = 0;
    while b < bn
        invariant
            bn == state_change.pool_tokens@.len(),
            burns == state_change.pool_tokens@.map_values(|c: Coin| c@),
            b <= bn,
            state@ == old(state)@,
            old(state)@.wf(),
            has_pool(old(state)@.pools, msg.pool_id@),
            i < old(state)@.pools.len(),
            i as int == pool_idx(old(state)@.pools, msg.pool_id@),
            gp == old(state)@.pools[i as int],
            first_source_idx_is(gp.assets, srcidx),
            0 <= srcidx < gp.assets.len(),
            srcdenom == gp.assets[srcidx].balance.denom,
            n == state_change.out_tokens@.len(),
            outs == state_change.out_tokens@.map_values(|c: Coin| c@),
            can_sub_all(gp.assets, outs, n as int),
            can_burn_all(gp.supply.denom, gp.supply.amount, burns, b as int),
            effects@.len() == matching_outs(outs, srcdenom, n as int).len(),
            forall|j: int|
                0 <= j < effects@.len() ==> ((#[trigger] effects@[j]) matches
                    TokenEffect::SendCoin { recipient, coin } && recipient@
                    == msg.counterparty_receiver@ && coin@ == matching_outs(
                    outs,
                    srcdenom,
                    n as int,
                )[j]),
            p2@ == (GPool {
                assets: assets_after_sub(old(state)@.pools[i as int].assets, outs, n as int),
                supply: GCoin {
                    denom: old(state)@.pools[i as int].supply.denom,
                    amount: old(state)@.pools[i as int].supply.amount - sum_amounts(
                        burns,
                        b as int,
                    ),
                },
                ..old(state)@.pools[i as int]
            }),
            p2@.wf(),
        decreases bn - b,
    {
        let ghost bb = b as int;
        let tok = state_change.pool_tokens[b].dup();
        proof {
            assert(burns[bb] == tok@);
        }
        match p2.subtract_supply(tok) {
            Ok(_) => {},
            Err(e) => {
                proof {
                    assert(!can_burn_all(gp.supply.denom, gp.supply.amount, burns, bn as int))
                        by {
                        if can_burn_all(gp.supply.denom, gp.supply.amount, burns, bn as int) {
                            lemma_can_burn_prefix(
                                gp.supply.denom,
                                gp.supply.amount,
                                burns,
                                bb + 1,
                                bn as int,
                            );
                        }
                    }
                }
                return Err(e);
            },
        }
        proof {
            assert(can_burn_all(gp.supply.denom, gp.supply.amount, burns, bb + 1));
        }
        b = b + 1;
    }
    state.set_pool_at(i, p2);
    proof {
        crate::handlers::lemma_first_source_unique(gp.assets, srcidx);
        assert forall|s: int| #[trigger] first_source_idx_is(gp.assets, s) implies s
            == srcidx by {}
    }
    Ok(ReceiveOutcome { effects })
}

/// Applies a swap on receipt: releases the computed output to the
/// recipient and moves the pool balances, in the direction the swap kind
/// dictates.
pub fn on_received_swap(
    state: &mut ContractState,
    env: &EnvInfo,
    msg: MsgSwapRequest,
    state_change: StateChange,
) -> (r: Result<ReceiveOutcome, ContractError>)
    requires
        old(state)@.wf(),
    ensures
        final(state)@.wf(),
        r is Err ==> final(state)@ == old(state)@,
        !has_pool(old(state)@.pools, msg.pool_id@) ==> r == Err::<ReceiveOutcome, ContractError>(
            ContractError::PoolNotFound,
        ),
        ({
            let pools = old(state)@.pools;
            let pid = msg.pool_id@;
            let tout = (state_change.out_tokens@[0])@;
            let added = if msg.swap_type == SwapMsgType::LEFT {
                msg.token_in@
            } else {
                tout
            };
            let removed = if msg.swap_type == SwapMsgType::LEFT {
                tout
            } else {
                msg.token_out@
            };
            &&& (r is Ok <==> has_pool(pools, pid) && state_change.out_tokens@.len() >= 1 && {
                let p = pools[pool_idx(pools, pid)];
                &&& can_add_all(p.assets, seq![added], 1)
                &&& can_sub_all(assets_after_add(p.assets, seq![added], 1), seq![removed], 1)
            })
            &&& (has_pool(pools, pid) ==> (r matches Ok(out) ==> {
                let i = pool_idx(pools, pid);
                let p = pools[i];
                &&& state_change.out_tokens@.len() >= 1
                &&& {
                    &&& final(state)@ == (GState {
                        pools: pools.update(
                            i,
                            GPool {
                                assets: assets_after_sub(
                                    assets_after_add(p.assets, seq![added], 1),
                                    seq![removed],
                                    1,
                                ),
                                ..p
                            },
                        ),
                        ..old(state)@
                    })
                    &&& out.effects@.len() == 1
                    &&& (out.effects@[0] matches TokenEffect::SendCoin { recipient, coin }
                        && recipient@ == msg.recipient@ && coin@ == tout)
                }
            }))
        }),
{
    let i: usize = match state.find_pool_index(&msg.pool_id) {
        Some(i) => i,
        None => {
            return Err(ContractError::PoolNotFound);
        },
    };
    proof {
        lemma_pool_idx_is(state@.pools, msg.pool_id@, i as int);
        assert(state@.pools[i as int].wf());
    }
    if state_change.out_tokens.len() == 0 {
        return Err(ContractError::MalformedPacket);
    }
    let token_out = state_change.out_tokens[0].dup();
    let mut effects: Vec<TokenEffect> = Vec::new();
    effects.push(
        TokenEffect::SendCoin { recipient: msg.recipient.clone(), coin: token_out.dup() },
    );
    let mut p2 = state.pools[i].dup();
    let added: Coin = match msg.swap_type {
        SwapMsgType::LEFT => msg.token_in.dup(),
        SwapMsgType::RIGHT => token_out.dup(),
    };
    let removed: Coin = match msg.swap_type {
        SwapMsgType::LEFT => token_out.dup(),
        SwapMsgType::RIGHT => msg.token_out.dup(),
    };
    let ghost before = p2@;
    let ghost gadd = added@;
    match p2.add_asset(added) {
        Ok(_) => {},
        Err(e) => {
            proof {
                assert(assets_after_add(before.assets, seq![gadd], 0) == before.assets);
                assert(seq![gadd][0] == gadd);
                assert(!can_add_all(before.assets, seq![gadd], 1));
            }
            return Err(e);
        },
    }
    proof {
        law_mutation_preserves_wf(
            before,
            p2@,
            denom_idx(before.assets, gadd.denom),
            before.assets[denom_idx(before.assets, gadd.denom)].balance.amount + gadd.amount,
        );
        assert(assets_after_add(before.assets, seq![gadd], 0) == before.assets);
        assert(seq![gadd][0] == gadd);
        assert(can_add_all(before.assets, seq![gadd], 0));
        assert(can_add_all(before.assets, seq![gadd], 1));
        assert(p2@.assets =~= assets_after_add(before.assets, seq![gadd], 1));
    }
    let ghost mid = p2@;
    let ghost grem = removed@;
    match p2.subtract_asset(removed) {
        Ok(_) => {},
        Err(e) => {
            proof {
                assert(assets_after_sub(mid.assets, seq![grem], 0) == mid.assets);
                assert(seq![grem][0] == grem);
                assert(!can_sub_all(mid.assets, seq![grem], 1));
            }
            return Err(e);
        },
    }
    proof {
        law_mutation_preserves_wf(
            mid,
            p2@,
            denom_idx(mid.assets, grem.denom),
            mid.assets[denom_idx(mid.assets, grem.denom)].balance.amount - grem.amount,
        );
        assert(assets_after_sub(mid.assets, seq![grem], 0) == mid.assets);
        assert(seq![grem][0] == grem);
        assert(can_sub_all(mid.assets, seq![grem], 0));
        assert(can_sub_all(mid.assets, seq![grem], 1));
        assert(p2@.assets =~= assets_after_sub(mid.assets, seq![grem], 1));
    }
    state.set_pool_at(i, p2);
    Ok(ReceiveOutcome { effects })
}

/// Dispatches an inbound packet to its operation's receive handler; the
/// closed payload union makes the dispatch exhaustive.
pub fn do_ibc_packet_receive(
    state: &mut ContractState,
    env: &EnvInfo,
    source_channel: &String,
    packet: IBCSwapPacketData,
) -> (r: Result<ReceiveOutcome, ContractError>)
    requires
        old(state)@.wf(),
        old(state)@.counter_wf(),
    ensures
        final(state)@.wf(),
        final(state)@.counter_wf(),
        r is Err ==> final(state)@ == old(state)@,
        packet.payload matches PacketPayload::Unspecified ==> (r matches Ok(o)
            && o.effects@.len() == 0 && final(state)@ == old(state)@),
        packet.payload matches PacketPayload::MakePool(m) ==> {
            &&& (packet.state_change is None ==> r == Err::<ReceiveOutcome, ContractError>(
                ContractError::MalformedPacket,
            ))
            &&& (packet.state_change matches Some(c) ==> {
                &&& (({
                    let liq = m.liquidity@.map_values(|a: PoolAsset| a@);
                    &&& (r is Ok <==> m.liquidity@.len() == 2 && make_pool_valid(
                        liq,
                        m.swap_fee as int,
                    ) && (c.pool_id matches Some(p) && c.source_chain_id is Some
                        && !has_pool(old(state)@.pools, p@)))
                    &&& (r matches Ok(o) ==> {
                        let gp = final(state)@.pools.last();
                        &&& (c.pool_id matches Some(p) && final(state)@ == (GState {
                            pools: old(state)@.pools.push(gp),
                            ..old(state)@
                        }) && gp.id == p@ && !has_pool(old(state)@.pools, p@))
                        &&& gp.status == PoolStatus::Initialized
                        &&& gp.supply.amount == 0
                        &&& gp.assets.len() == 2
                        &&& (forall|k: int|
                            0 <= k < 2 ==> (#[trigger] gp.assets[k]).balance == liq[k].balance
                                && gp.assets[k].weight == liq[k].weight && gp.assets[k].decimal
                                == liq[k].decimal && gp.assets[k].side != liq[k].side)
                        &&& gp.counter_party_channel == source_channel@
                        &&& gp.destination_chain_id == env.chain_id@
                        &&& o.effects@.len() == 0
                    })
                }))
            })
        },
        packet.payload matches PacketPayload::TakePool(m) ==> {
                &&& (!has_pool(old(state)@.pools, m.pool_id@) ==> r == Err::<ReceiveOutcome, ContractError>(
                    ContractError::PoolNotFound,
                ))
                &&& (({
                    let pools = old(state)@.pools;
                    let pid = m.pool_id@;
                    has_pool(pools, pid) ==> {
                        let i = pool_idx(pools, pid);
                        let p = pools[i];
                        let toks = seq![p.assets[0].balance, p.assets[1].balance];
                        let shares = if p.supply.amount == 0 {
                            INIT_LP_TOKENS * MULTIPLIER
                        } else {
                            multi_minted(p.assets, toks, p.supply.amount)
                        };
                        // A take is re-validated on receipt: only a pool still
                        // awaiting its take may be activated; a replayed take on an
                        // active pool mints nothing.
                        &&& (r == Err::<ReceiveOutcome, ContractError>(ContractError::InvalidStatus)
                            <==> p.status != PoolStatus::Initialized)
                        &&& (p.status == PoolStatus::Initialized ==> {
                            &&& (p.assets.len() != 2 ==> r == Err::<ReceiveOutcome, ContractError>(
                                ContractError::InvalidAssetInput,
                            ))
                            &&& (p.assets.len() == 2 && !has_pool_token(old(state)@.pool_tokens, pid)
                                ==> r == Err::<ReceiveOutcome, ContractError>(
                                ContractError::LpTokenNotInitialized,
                            ))
                            &&& (r is Ok <==> p.assets.len() == 2 && has_pool_token(
                                old(state)@.pool_tokens,
                                pid,
                            ) && (p.supply.amount == 0 || (crate::market::multi_ok(p.assets, toks)
                                && crate::market::multi_fits(p.assets, toks, p.supply.amount)))
                                && p.supply.amount + shares <= u128::MAX)
                        })
                        &&& (r matches Ok(o) ==> {
                            &&& final(state)@ == (GState {
                                pools: pools.update(
                                    i,
                                    GPool {
                                        supply: GCoin {
                                            denom: p.supply.denom,
                                            amount: p.supply.amount + shares,
                                        },
                                        status: PoolStatus::Active,
                                        ..p
                                    },
                                ),
                                ..old(state)@
                            })
                            &&& o.effects@.len() == 1
                            &&& (o.effects@[0] matches TokenEffect::MintLp { recipient, lp_token, amount }
                                && recipient@ == m.counter_creator@ && amount == shares)
                        })
                    }
                }))
        },
        packet.payload matches PacketPayload::CancelPool(m) ==> {
                &&& (r is Ok <==> has_pool(old(state)@.pools, m.pool_id@) && old(state)@.pools[pool_idx(
                    old(state)@.pools,
                    m.pool_id@,
                )].status == PoolStatus::Initialized)
                &&& (!has_pool(old(state)@.pools, m.pool_id@) ==> r == Err::<ReceiveOutcome, ContractError>(
                    ContractError::PoolNotFound,
                ))
                &&& (has_pool(old(state)@.pools, m.pool_id@) && old(state)@.pools[pool_idx(
                    old(state)@.pools,
                    m.pool_id@,
                )].status != PoolStatus::Initialized ==> r == Err::<ReceiveOutcome, ContractError>(
                    ContractError::InvalidStatus,
                ))
                &&& (r matches Ok(o) ==> final(state)@ == (GState {
                    pools: old(state)@.pools.remove(pool_idx(old(state)@.pools, m.pool_id@)),
                    ..old(state)@
                }) && o.effects@.len() == 0)
        },
        packet.payload matches PacketPayload::SingleAssetDeposit(m) ==> {
            &&& (packet.state_change is None ==> r == Err::<ReceiveOutcome, ContractError>(
                ContractError::MalformedPacket,
            ))
            &&& (packet.state_change matches Some(c) ==> {
                &&& (({
                    let pools = old(state)@.pools;
                    let pid = m.pool_id@;
                    &&& (m.token@.amount > 0 && !has_pool(pools, pid) ==> r == Err::<
                        ReceiveOutcome,
                        ContractError,
                    >(ContractError::PoolNotFound))
                    &&& (r is Ok <==> m.token@.amount > 0 && has_pool(pools, pid)
                        && c.pool_tokens@.len() >= 1 && {
                        let p = pools[pool_idx(pools, pid)];
                        let shares = (c.pool_tokens@[0])@;
                        &&& has_denom(p.assets, m.token@.denom)
                        &&& p.assets[denom_idx(p.assets, m.token@.denom)].balance.amount
                            + m.token@.amount <= u128::MAX
                        &&& shares.denom == p.supply.denom
                        &&& p.supply.amount + shares.amount <= u128::MAX
                    })
                    &&& (r matches Ok(o) ==> has_pool(pools, pid) && {
                        let i = pool_idx(pools, pid);
                        let p = pools[i];
                        let shares = (c.pool_tokens@[0])@;
                        &&& c.pool_tokens@.len() >= 1
                        &&& has_denom(p.assets, m.token@.denom)
                        &&& shares.denom == p.supply.denom
                        &&& final(state)@ == (GState {
                            pools: pools.update(
                                i,
                                GPool {
                                    assets: assets_after_add(p.assets, seq![m.token@], 1),
                                    supply: GCoin {
                                        denom: p.supply.denom,
                                        amount: p.supply.amount + shares.amount,
                                    },
                                    ..p
                                },
                            ),
                            ..old(state)@
                        })
                        &&& o.effects@.len() == 0
                    })
                }))
            })
        },
        packet.payload matches PacketPayload::MakeMultiDeposit(m) ==> {
            &&& (packet.state_change is None ==> r == Err::<ReceiveOutcome, ContractError>(
                ContractError::MalformedPacket,
            ))
            &&& (packet.state_change matches Some(c) ==> {
                &&& (({
                    let pools = old(state)@.pools;
                    let pid = m.pool_id@;
                    &&& (r is Ok <==> has_pool(pools, pid) && m.deposits@.len() == 2 && (
                    c.multi_deposit_order_id matches Some(oid) && !has_order(
                        old(state)@.orders,
                        pid,
                        oid as int,
                    ) && !has_active(
                        old(state)@.active_orders,
                        m.deposits@[0].sender@,
                        pid,
                        m.deposits@[1].sender@,
                    ) && old(state)@.config.counter < u64::MAX))
                    &&& (r matches Ok(o) ==> has_pool(pools, pid) && m.deposits@.len() == 2 && (
                    c.multi_deposit_order_id matches Some(oid) && {
                        let go = final(state)@.orders.last();
                        let bumped = old(state)@.config.counter + 1;
                        &&& !has_order(old(state)@.orders, pid, oid as int)
                        &&& !has_active(
                            old(state)@.active_orders,
                            m.deposits@[0].sender@,
                            pid,
                            m.deposits@[1].sender@,
                        )
                        &&& go.id == oid as int
                        &&& go.pool_id == pid
                        &&& go.status == OrderStatus::Pending
                        &&& go.source_maker == m.deposits@[0].sender@
                        &&& go.destination_taker == m.deposits@[1].sender@
                        &&& go.deposits == seq![m.deposits@[0].balance@, m.deposits@[1].balance@]
                        &&& go.chain_id == m.chain_id@
                        &&& go.created_at == env.block_height as int
                        &&& final(state)@.orders == old(state)@.orders.push(go)
                        &&& final(state)@.active_orders == old(state)@.active_orders.push(
                            GActive {
                                source_maker: go.source_maker,
                                pool_id: pid,
                                destination_taker: go.destination_taker,
                                order_id: oid as int,
                            },
                        )
                        &&& final(state)@.pools == old(state)@.pools
                        &&& final(state)@.pool_tokens == old(state)@.pool_tokens
                        &&& final(state)@.temp == old(state)@.temp
                        // The local id generator is advanced past the mirrored id
                        // so it stays monotonic.
                        &&& final(state)@.config == (Config {
                            counter: if oid as int > bumped {
                                oid
                            } else {
                                bumped as u64
                            },
                            token_code_id: old(state)@.config.token_code_id,
                        })
                        &&& o.effects@.len() == 0
                    }))
                }))
            })
        },
        packet.payload matches PacketPayload::TakeMultiDeposit(m) ==> {
            &&& (packet.state_change is None ==> r == Err::<ReceiveOutcome, ContractError>(
                ContractError::MalformedPacket,
            ))
            &&& (packet.state_change matches Some(c) ==> {
                &&& (({
                    let pools = old(state)@.pools;
                    let orders = old(state)@.orders;
                    let pid = m.pool_id@;
                    &&& (!has_pool(pools, pid) ==> r == Err::<ReceiveOutcome, ContractError>(
                        ContractError::PoolNotFound,
                    ))
                    &&& (has_pool(pools, pid) && !has_order(orders, pid, m.order_id as int) ==> r
                        == Err::<ReceiveOutcome, ContractError>(ContractError::ErrOrderNotFound))
                    &&& (has_pool(pools, pid) && has_order(orders, pid, m.order_id as int) ==> {
                        let oi = order_idx(orders, pid, m.order_id as int);
                        let o = orders[oi];
                        &&& (o.status != OrderStatus::Pending ==> r == Err::<
                            ReceiveOutcome,
                            ContractError,
                        >(ContractError::ErrOrderAlreadyCompleted))
                        &&& (r is Ok <==> o.status == OrderStatus::Pending && {
                            let i = pool_idx(pools, pid);
                            let p = pools[i];
                            let gtokens = c.pool_tokens@.map_values(|c: Coin| c@);
                            let shares = sum_amounts(gtokens, gtokens.len() as int);
                            &&& sums_fit(gtokens, gtokens.len() as int)
                            &&& has_pool_token(old(state)@.pool_tokens, pid)
                            &&& p.supply.amount + shares <= u128::MAX
                            &&& can_add_all(p.assets, o.deposits, o.deposits.len() as int)
                        })
                        &&& (r matches Ok(out) ==> {
                            let i = pool_idx(pools, pid);
                            let p = pools[i];
                            let shares = sum_amounts(
                                c.pool_tokens@.map_values(|c: Coin| c@),
                                c.pool_tokens@.len() as int,
                            );
                            &&& o.status == OrderStatus::Pending
                            &&& final(state)@.orders == orders.update(
                                oi,
                                GOrder { status: OrderStatus::Complete, ..o },
                            )
                            &&& final(state)@.active_orders == old(state)@.active_orders.remove(
                                crate::state::active_idx(
                                    old(state)@.active_orders,
                                    o.source_maker,
                                    o.pool_id,
                                    o.destination_taker,
                                ),
                            )
                            &&& final(state)@.pools == pools.update(
                                i,
                                GPool {
                                    assets: assets_after_add(p.assets, o.deposits, o.deposits.len() as int),
                                    supply: GCoin {
                                        denom: p.supply.denom,
                                        amount: p.supply.amount + shares,
                                    },
                                    ..p
                                },
                            )
                            &&& out.effects@.len() == 1
                            &&& (out.effects@[0] matches TokenEffect::MintLp { recipient, lp_token, amount }
                                && recipient@ == o.source_maker && amount == shares)
                        })
                    })
                }))
            })
        },
        packet.payload matches PacketPayload::CancelMultiDeposit(m) ==> {
            &&& (packet.state_change is None ==> r == Err::<ReceiveOutcome, ContractError>(
                ContractError::MalformedPacket,
            ))
            &&& (packet.state_change matches Some(c) ==> {
                &&& (({
                    let pools = old(state)@.pools;
                    let orders = old(state)@.orders;
                    let pid = m.pool_id@;
                    &&& (!has_pool(pools, pid) ==> r == Err::<ReceiveOutcome, ContractError>(
                        ContractError::PoolNotFound,
                    ))
                    &&& (has_pool(pools, pid) && !has_order(orders, pid, m.order_id as int) ==> r
                        == Err::<ReceiveOutcome, ContractError>(ContractError::ErrOrderNotFound))
                    &&& (has_pool(pools, pid) && has_order(orders, pid, m.order_id as int) ==> {
                        let oi = order_idx(orders, pid, m.order_id as int);
                        let o = orders[oi];
                        &&& (r is Ok <==> o.status == OrderStatus::Pending)
                        &&& (o.status != OrderStatus::Pending ==> r == Err::<
                            ReceiveOutcome,
                            ContractError,
                        >(ContractError::ErrOrderAlreadyCompleted))
                        &&& (r matches Ok(out) ==> {
                            &&& final(state)@.orders == orders.update(
                                oi,
                                GOrder { status: OrderStatus::Cancelled, ..o },
                            )
                            &&& final(state)@.active_orders == old(state)@.active_orders.remove(
                                crate::state::active_idx(
                                    old(state)@.active_orders,
                                    o.source_maker,
                                    o.pool_id,
                                    o.destination_taker,
                                ),
                            )
                            &&& final(state)@.pools == old(state)@.pools
                            &&& out.effects@.len() == 0
                        })
                    })
                }))
            })
        },
        packet.payload matches PacketPayload::MultiWithdraw(m) ==> {
            &&& (packet.state_change is None ==> r == Err::<ReceiveOutcome, ContractError>(
                ContractError::MalformedPacket,
            ))
            &&& (packet.state_change matches Some(c) ==> {
                &&& (!has_pool(old(state)@.pools, m.pool_id@) ==> r == Err::<ReceiveOutcome, ContractError>(
                    ContractError::PoolNotFound,
                ))
                &&& (({
                    let pools = old(state)@.pools;
                    let pid = m.pool_id@;
                    let outs = c.out_tokens@.map_values(|c: Coin| c@);
                    let burns = c.pool_tokens@.map_values(|c: Coin| c@);
                    &&& (r is Ok <==> has_pool(pools, pid) && {
                        let p = pools[pool_idx(pools, pid)];
                        &&& (exists|s: int|
                            0 <= s < p.assets.len() && (#[trigger] p.assets[s]).side == PoolSide::SOURCE)
                        &&& can_sub_all(p.assets, outs, outs.len() as int)
                        &&& can_burn_all(p.supply.denom, p.supply.amount, burns, burns.len() as int)
                    })
                    &&& (has_pool(pools, pid) ==> (r matches Ok(out) ==> {
                        let i = pool_idx(pools, pid);
                        let p = pools[i];
                        &&& final(state)@ == (GState {
                            pools: pools.update(
                                i,
                                GPool {
                                    assets: assets_after_sub(p.assets, outs, outs.len() as int),
                                    supply: GCoin {
                                        denom: p.supply.denom,
                                        amount: p.supply.amount - sum_amounts(burns, burns.len() as int),
                                    },
                                    ..p
                                },
                            ),
                            ..old(state)@
                        })
                        // This chain's leg of the payout: one transfer to the
                        // counterparty receiver for every out-token denominated by
                        // the source-side asset, in packet order.
                        &&& (forall|s: int|
                            #[trigger] first_source_idx_is(p.assets, s) ==> {
                                let mo = matching_outs(
                                    outs,
                                    p.assets[s].balance.denom,
                                    outs.len() as int,
                                );
                                &&& out.effects@.len() == mo.len()
                                &&& forall|k: int|
                                    0 <= k < mo.len() ==> ((#[trigger] out.effects@[k]) matches
                                        TokenEffect::SendCoin { recipient, coin } && recipient@
                                        == m.counterparty_receiver@ && coin@ == mo[k])
                            })
                    }))
                }))
            })
        },
        packet.payload matches PacketPayload::Swap(m) ==> {
            &&& (packet.state_change is None ==> r == Err::<ReceiveOutcome, ContractError>(
                ContractError::MalformedPacket,
            ))
            &&& (packet.state_change matches Some(c) ==> {
                &&& (!has_pool(old(state)@.pools, m.pool_id@) ==> r == Err::<ReceiveOutcome, ContractError>(
                    ContractError::PoolNotFound,
                ))
                &&& (({
                    let pools = old(state)@.pools;
                    let pid = m.pool_id@;
                    let tout = (c.out_tokens@[0])@;
                    let added = if m.swap_type == SwapMsgType::LEFT {
                        m.token_in@
                    } else {
                        tout
                    };
                    let removed = if m.swap_type == SwapMsgType::LEFT {
                        tout
                    } else {
                        m.token_out@
                    };
                    &&& (r is Ok <==> has_pool(pools, pid) && c.out_tokens@.len() >= 1 && {
                        let p = pools[pool_idx(pools, pid)];
                        &&& can_add_all(p.assets, seq![added], 1)
                        &&& can_sub_all(assets_after_add(p.assets, seq![added], 1), seq![removed], 1)
                    })
                    &&& (has_pool(pools, pid) ==> (r matches Ok(out) ==> {
                        let i = pool_idx(pools, pid);
                        let p = pools[i];
                        &&& c.out_tokens@.len() >= 1
                        &&& {
                            &&& final(state)@ == (GState {
                                pools: pools.update(
                                    i,
                                    GPool {
                                        assets: assets_after_sub(
                                            assets_after_add(p.assets, seq![added], 1),
                                            seq![removed],
                                            1,
                                        ),
                                        ..p
                                    },
                                ),
                                ..old(state)@
                            })
                            &&& out.effects@.len() == 1
                            &&& (out.effects@[0] matches TokenEffect::SendCoin { recipient, coin }
                                && recipient@ == m.recipient@ && coin@ == tout)
                        }
                    }))
                }))
            })
        },
{
    let sc: Option<StateChange> = packet.state_change;
    match packet.payload {
        PacketPayload::Unspecified => Ok(ReceiveOutcome { effects: Vec::new() }),
        PacketPayload::MakePool(msg) => {
            let change = match sc {
                Some(c) => c,
                None => {
                    return Err(ContractError::MalformedPacket);
                },
            };
            let r = on_received_make_pool(state, env, source_channel, msg, change);
            proof {
                if r is Ok {
                    assert forall|k: int|
                        0 <= k < state@.orders.len() implies (#[trigger] state@.orders[k]).id
                        <= state@.config.counter as int by {
                        assert(state@.orders[k] == old(state)@.orders[k]);
                    }
                }
            }
            r
        },
        PacketPayload::TakePool(msg) => {
            let r = on_received_take_pool(state, env, msg);
            proof {
                if r is Ok {
                    assert forall|k: int|
                        0 <= k < state@.orders.len() implies (#[trigger] state@.orders[k]).id
                        <= state@.config.counter as int by {
                        assert(state@.orders[k] == old(state)@.orders[k]);
                    }
                }
            }
            r
        },
        PacketPayload::CancelPool(msg) => {
            let r = on_received_cancel_pool(state, env, msg);
            proof {
                if r is Ok {
                    assert forall|k: int|
                        0 <= k < state@.orders.len() implies (#[trigger] state@.orders[k]).id
                        <= state@.config.counter as int by {
                        assert(state@.orders[k] == old(state)@.orders[k]);
                    }
                }
            }
            r
        },
        PacketPayload::SingleAssetDeposit(msg) => {
            let change = match sc {
                Some(c) => c,
                None => {
                    return Err(ContractError::MalformedPacket);
                },
            };
            let r = on_received_single_deposit(state, env, msg, change);
            proof {
                if r is Ok {
                    assert forall|k: int|
                        0 <= k < state@.orders.len() implies (#[trigger] state@.orders[k]).id
                        <= state@.config.counter as int by {
                        assert(state@.orders[k] == old(state)@.orders[k]);
                    }
                }
            }
            r
        },
        PacketPayload::MakeMultiDeposit(msg) => {
            let change = match sc {
                Some(c) => c,
                None => {
                    return Err(ContractError::MalformedPacket);
                },
            };
            on_received_make_multi_deposit(state, env, msg, change)
        },
        PacketPayload::TakeMultiDeposit(msg) => {
            let change = match sc {
                Some(c) => c,
                None => {
                    return Err(ContractError::MalformedPacket);
                },
            };
            on_received_take_multi_deposit(state, env, msg, change)
        },
        PacketPayload::CancelMultiDeposit(msg) => {
            let change = match sc {
                Some(c) => c,
                None => {
                    return Err(ContractError::MalformedPacket);
                },
            };
            on_received_cancel_multi_deposit(state, env, msg, change)
        },
        PacketPayload::MultiWithdraw(msg) => {
            let change = match sc {
                Some(c) => c,
                None => {
                    return Err(ContractError::MalformedPacket);
                },
            };
            let r = on_received_multi_withdraw(state, env, msg, change);
            proof {
                if r is Ok {
                    assert forall|k: int|
                        0 <= k < state@.orders.len() implies (#[trigger] state@.orders[k]).id
                        <= state@.config.counter as int by {
                        assert(state@.orders[k] == old(state)@.orders[k]);
                    }
                }
            }
            r
        },
        PacketPayload::Swap(msg) => {
            let change = match sc {
                Some(c) => c,
                None => {
                    return Err(ContractError::MalformedPacket);
                },
            };
            let r = on_received_swap(state, env, msg, change);
            proof {
                if r is Ok {
                    assert forall|k: int|
                        0 <= k < state@.orders.len() implies (#[trigger] state@.orders[k]).id
                        <= state@.config.counter as int by {
                        assert(state@.orders[k] == old(state)@.orders[k]);
                    }
                }
            }
            r
        },
    }
}

} // verus!
