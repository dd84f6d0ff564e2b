//! Acknowledgement handlers on the initiating chain: a success
//! acknowledgement finalizes the optimistic local state, a failure or
//! timeout rolls it back by refunding the escrowed tokens and deleting
//! tentative records.

use vstd::prelude::*;

verus! {

use crate::error::ContractError;
use crate::market::{
    Coin, GCoin, GPool, PoolStatus, PoolSide, InterchainMarketMaker, denom_idx, has_denom,
    multi_minted,
    law_mutation_preserves_wf, INIT_LP_TOKENS, MULTIPLIER,
};
use crate::state::{
    ContractState, GState, has_pool, has_pool_token, pool_idx, pool_token_idx, has_order,
    order_idx, lemma_pool_idx_is, lemma_pool_token_idx_is, lemma_order_idx_is,
};
use crate::types::{
    GOrder, EnvInfo, MsgTakePoolRequest, MsgCancelPoolRequest, MsgSingleAssetDepositRequest,
    MsgTakeMultiAssetDepositRequest, MsgCancelMultiAssetDepositRequest,
    MsgMultiAssetWithdrawRequest, MsgSwapRequest, SwapMsgType, OrderStatus, StateChange,
    TokenEffect, IBCSwapPacketData, PacketPayload,
};
use crate::receive::{
    assets_after_add, assets_after_sub, sum_amounts, can_add_all, can_sub_all, can_burn_all,
    sums_fit, matching_outs,
};
use crate::handlers::{first_source_idx_is, lemma_first_source_unique};
use crate::handlers::derive_pool_id;

/// Finalizes an acknowledged take: credits the first share mint and flips
/// the pool to `Active`, mirroring what the counterparty did on receipt.
fn ack_take_pool(state: &mut ContractState, env: &EnvInfo, msg: MsgTakePoolRequest) -> (r: Result<
    Vec<TokenEffect>,
    ContractError,
>)
    requires
        old(state)@.wf(),
    ensures
        final(state)@.wf(),
        r is Err ==> final(state)@ == old(state)@,
        ({
            let pools = old(state)@.pools;
            let pid = msg.pool_id@;
            &&& (!has_pool(pools, pid) ==> r == Err::<Vec<TokenEffect>, ContractError>(
                ContractError::PoolNotFound,
            ))
            &&& (has_pool(pools, pid) ==> {
                let i = pool_idx(pools, pid);
                let p = pools[i];
                let toks = seq![p.assets[0].balance, p.assets[1].balance];
                let shares = if p.supply.amount == 0 {
                    INIT_LP_TOKENS * MULTIPLIER
                } else {
                    multi_minted(p.assets, toks, p.supply.amount)
                };
                // A late or replayed acknowledgement on an already active
                // pool must not mint again.
                &&& (r == Err::<Vec<TokenEffect>, ContractError>(ContractError::InvalidStatus)
                    <==> p.status != PoolStatus::Initialized)
                &&& (r is Ok <==> p.status == PoolStatus::Initialized && p.assets.len() == 2 && (
                p.supply.amount == 0 || (crate::market::multi_ok(p.assets, toks)
                    && crate::market::multi_fits(p.assets, toks, p.supply.amount)))
                    && p.supply.amount + shares <= u128::MAX)
                &&& (r matches Ok(eff) ==> {
                    &&& final(state)@ == (GState {
                        pools: pools.update(
                            i,
                            GPool {
                                supply: GCoin {
                                    denom: p.supply.denom,
                                    amount: p.supply.amount + shares,
                                },
                                status: PoolStatus::Active,
                                ..p
                            },
                        ),
                        ..old(state)@
                    })
                    &&& eff@.len() == 0
                })
            })
        }),
{
    let i: usize = match state.find_pool_index(&msg.pool_id) {
        Some(i) => i,
        None => {
            return Err(ContractError::PoolNotFound);
        },
    };
    proof {
        lemma_pool_idx_is(state@.pools, msg.pool_id@, i as int);
        assert(state@.pools[i as int].wf());
    }
    if !matches!(state.pools[i].status, PoolStatus::Initialized) {
        return Err(ContractError::InvalidStatus);
    }
    if state.pools[i].assets.len() != 2 {
        return Err(ContractError::InvalidAssetInput);
    }
    let mut tokens: Vec<Coin> = Vec::new();
    tokens.push(state.pools[i].assets[0].balance.dup());
    tokens.push(state.pools[i].assets[1].balance.dup());
    proof {
        let gp = state@.pools[i as int];
        assert(tokens@.map_values(|c: Coin| c@) =~= seq![
            gp.assets[0].balance,
            gp.assets[1].balance,
        ]);
    }
    let fee_rate: u32 = state.pools[i].swap_fee;
    let amm = InterchainMarketMaker::new(&state.pools[i], fee_rate);
    let shares: u128 = match amm.deposit_multi_asset(&tokens) {
        Ok(t) => t.0,
        Err(e) => {
            return Err(e);
        },
    };
    let mut p2 = state.pools[i].dup();
    match p2.add_supply(Coin { denom: msg.pool_id.clone(), amount: shares }) {
        Ok(_) => {},
        Err(e) => {
            return Err(e);
        },
    }
    p2.status = PoolStatus::Active;
    proof {
        assert(p2@.wf()) by {
            assert(p2@.assets == old(state)@.pools[i as int].assets);
            assert(crate::market::sum_weights(p2@.assets) == 100);
        }
    }
    state.set_pool_at(i, p2);
    Ok(Vec::new())
}

/// Finalizes an acknowledged cancellation: refunds the source-side escrow
/// to the creator and deletes the pool and its share-token record.
fn ack_cancel_pool(state: &mut ContractState, env: &EnvInfo, msg: MsgCancelPoolRequest) -> (r:
    Result<Vec<TokenEffect>, ContractError>)
    requires
        old(state)@.wf(),
    ensures
        final(state)@.wf(),
        r is Err ==> final(state)@ == old(state)@,
        !has_pool(old(state)@.pools, msg.pool_id@) ==> r == Err::<Vec<TokenEffect>, ContractError>(
            ContractError::PoolNotFound,
        ),
        has_pool(old(state)@.pools, msg.pool_id@) ==> (r == Err::<Vec<TokenEffect>, ContractError>(
            ContractError::InvalidStatus,
        ) <==> old(state)@.pools[pool_idx(old(state)@.pools, msg.pool_id@)].status
            != PoolStatus::Initialized),
        r is Ok <==> has_pool(old(state)@.pools, msg.pool_id@) && {
            let p = old(state)@.pools[pool_idx(old(state)@.pools, msg.pool_id@)];
            &&& p.status == PoolStatus::Initialized
            &&& (exists|sx: int|
                0 <= sx < p.assets.len() && (#[trigger] p.assets[sx]).side == PoolSide::SOURCE)
        },
        r matches Ok(eff) ==> {
            let pools = old(state)@.pools;
            let pid = msg.pool_id@;
            let i = pool_idx(pools, pid);
            let p = pools[i];
            &&& has_pool(pools, pid)
            &&& final(state)@.pools == pools.remove(i)
            &&& (has_pool_token(old(state)@.pool_tokens, pid)
                ==> final(state)@.pool_tokens == old(state)@.pool_tokens.remove(
                pool_token_idx(old(state)@.pool_tokens, pid),
            ))
            &&& (!has_pool_token(old(state)@.pool_tokens, pid)
                ==> final(state)@.pool_tokens == old(state)@.pool_tokens)
            &&& final(state)@.orders == old(state)@.orders
            &&& final(state)@.active_orders == old(state)@.active_orders
            &&& final(state)@.config == old(state)@.config
            &&& eff@.len() == 1
            &&& (eff@[0] matches TokenEffect::SendCoin { recipient, coin } && recipient@
                == p.source_creator)
        },
{
    let i: usize = match state.find_pool_index(&msg.pool_id) {
        Some(i) => i,
        None => {
            return Err(ContractError::PoolNotFound);
        },
    };
    proof {
        lemma_pool_idx_is(state@.pools, msg.pool_id@, i as int);
    }
    // Cancellation finalizes only a pool still awaiting its take.
    if !matches!(state.pools[i].status, PoolStatus::Initialized) {
        return Err(ContractError::InvalidStatus);
    }
    let src_asset = match state.pools[i].find_asset_by_side(PoolSide::SOURCE) {
        Ok(a) => a,
        Err(e) => {
            proof {
                let ghost ga = state@.pools[i as int].assets;
                assert(!(exists|sx: int|
                    0 <= sx < ga.len() && (#[trigger] ga[sx]).side == PoolSide::SOURCE)) by {
                    if exists|sx: int|
                        0 <= sx < ga.len() && (#[trigger] ga[sx]).side == PoolSide::SOURCE {
                        let w = choose|sx: int|
                            0 <= sx < ga.len() && (#[trigger] ga[sx]).side == PoolSide::SOURCE;
                        assert((ga[w]).side != PoolSide::SOURCE);
                    }
                }
            }
            return Err(e);
        },
    };
    let creator = state.pools[i].source_creator.clone();
    let mut effects: Vec<TokenEffect> = Vec::new();
    effects.push(TokenEffect::SendCoin { recipient: creator, coin: src_asset.balance });
    match state.find_pool_token_index(&msg.pool_id) {
        Some(t) => {
            proof {
                lemma_pool_token_idx_is(state@.pool_tokens, msg.pool_id@, t as int);
            }
            state.remove_pool_token_at(t);
        },
        None => {},
    }
    let j: usize = match state.find_pool_index(&msg.pool_id) {
        Some(j) => j,
        None => {
            proof {
                assert(false);
            }
            0
        },
    };
    proof {
        lemma_pool_idx_is(state@.pools, msg.pool_id@, j as int);
    }
    state.remove_pool_at(j);
    Ok(effects)
}

/// Finalizes an acknowledged single-sided deposit: mints the shares to the
/// depositor and credits the asset and the supply.
fn ack_single_deposit(
    state: &mut ContractState,
    env: &EnvInfo,
    msg: MsgSingleAssetDepositRequest,
    state_change: StateChange,
) -> (r: Result<Vec<TokenEffect>, ContractError>)
    requires
        old(state)@.wf(),
    ensures
        final(state)@.wf(),
        r is Err ==> final(state)@ == old(state)@,
        r is Ok <==> has_pool(old(state)@.pools, msg.pool_id@)
            && state_change.pool_tokens@.len() >= 1 && has_pool_token(
            old(state)@.pool_tokens,
            msg.pool_id@,
        ) && {
            let p = old(state)@.pools[pool_idx(old(state)@.pools, msg.pool_id@)];
            let shares = (state_change.pool_tokens@[0])@;
            &&& has_denom(p.assets, msg.token@.denom)
            &&& p.assets[crate::market::denom_idx(p.assets, msg.token@.denom)].balance.amount
                + msg.token@.amount <= u128::MAX
            &&& shares.denom == p.supply.denom
            &&& p.supply.amount + shares.amount <= u128::MAX
        },
        r matches Ok(eff) ==> {
            let pools = old(state)@.pools;
            let pid = msg.pool_id@;
            let i = pool_idx(pools, pid);
            let p = pools[i];
            let shares = (state_change.pool_tokens@[0])@;
            &&& has_pool(pools, pid)
            &&& state_change.pool_tokens@.len() >= 1
            &&& final(state)@ == (GState {
                pools: pools.update(
                    i,
                    GPool {
                        assets: assets_after_add(p.assets, seq![msg.token@], 1),
                        supply: GCoin {
                            denom: p.supply.denom,
                            amount: p.supply.amount + shares.amount,
                        },
                        ..p
                    },
                ),
                ..old(state)@
            })
            &&& eff@.len() == 1
            &&& (eff@[0] matches TokenEffect::MintLp { recipient, lp_token, amount } && recipient@
                == msg.sender@ && amount == shares.amount)
        },
{
    let i: usize = match state.find_pool_index(&msg.pool_id) {
        Some(i) => i,
        None => {
            return Err(ContractError::PoolNotFound);
        },
    };
    proof {
        lemma_pool_idx_is(state@.pools, msg.pool_id@, i as int);
        assert(state@.pools[i as int].wf());
    }
    if state_change.pool_tokens.len() == 0 {
        return Err(ContractError::MalformedPacket);
    }
    let ti: usize = match state.find_pool_token_index(&msg.pool_id) {
        Some(t) => t,
        None => {
            return Err(ContractError::LpTokenNotInitialized);
        },
    };
    let lp_token = state.pool_tokens[ti].address.clone();
    let shares: Coin = state_change.pool_tokens[0].dup();
    let amount: u128 = shares.amount;
    let mut p2 = state.pools[i].dup();
    let ghost before = p2@;
    match p2.add_asset(msg.token.dup()) {
        Ok(_) => {},
        Err(e) => {
            return Err(e);
        },
    }
    proof {
        law_mutation_preserves_wf(
            before,
            p2@,
            denom_idx(before.assets, msg.token@.denom),
            before.assets[denom_idx(before.assets, msg.token@.denom)].balance.amount
                + msg.token@.amount,
        );
        assert(assets_after_add(before.assets, seq![msg.token@], 0) == before.assets);
        assert(seq![msg.token@][0] == msg.token@);
        assert(p2@.assets =~= assets_after_add(before.assets, seq![msg.token@], 1));
    }
    match p2.add_supply(shares) {
        Ok(_) => {},
        Err(e) => {
            return Err(e);
        },
    }
    proof {
        assert(p2@.wf()) by {
            assert(crate::market::sum_weights(p2@.assets) == 100);
        }
    }
    state.set_pool_at(i, p2);
    let mut effects: Vec<TokenEffect> = Vec::new();
    effects.push(TokenEffect::MintLp { recipient: msg.sender.clone(), lp_token, amount });
    Ok(effects)
}

/// Finalizes an acknowledged take of a deposit order: completes the order,
/// drops its index entry, and credits the deposits and the share supply.
fn ack_take_multi_deposit(
    state: &mut ContractState,
    env: &EnvInfo,
    msg: MsgTakeMultiAssetDepositRequest,
    state_change: StateChange,
) -> (r: Result<Vec<TokenEffect>, ContractError>)
    requires
        old(state)@.wf(),
        old(state)@.counter_wf(),
    ensures
        final(state)@.wf(),
        final(state)@.counter_wf(),
        r is Err ==> final(state)@ == old(state)@,
        r is Ok <==> has_pool(old(state)@.pools, msg.pool_id@) && has_order(
            old(state)@.orders,
            msg.pool_id@,
            msg.order_id as int,
        ) && {
            let p = old(state)@.pools[pool_idx(old(state)@.pools, msg.pool_id@)];
            let o = old(state)@.orders[order_idx(
                old(state)@.orders,
                msg.pool_id@,
                msg.order_id as int,
            )];
            let gtokens = state_change.pool_tokens@.map_values(|c: Coin| c@);
            &&& o.status == OrderStatus::Pending
            &&& sums_fit(gtokens, gtokens.len() as int)
            &&& has_pool_token(old(state)@.pool_tokens, msg.pool_id@)
            &&& p.supply.amount + sum_amounts(gtokens, gtokens.len() as int) <= u128::MAX
            &&& can_add_all(p.assets, o.deposits, o.deposits.len() as int)
        },
        r matches Ok(eff) ==> {
            let pools = old(state)@.pools;
            let orders = old(state)@.orders;
            let pid = msg.pool_id@;
            let i = pool_idx(pools, pid);
            let oi = order_idx(orders, pid, msg.order_id as int);
            let p = pools[i];
            let o = orders[oi];
            let shares = sum_amounts(
                state_change.pool_tokens@.map_values(|c: Coin| c@),
                state_change.pool_tokens@.len() as int,
            );
            &&& has_pool(pools, pid)
            &&& has_order(orders, pid, msg.order_id as int)
            &&& o.status == OrderStatus::Pending
            &&& final(state)@.orders == orders.update(
                oi,
                GOrder { status: OrderStatus::Complete, ..o },
            )
            &&& final(state)@.active_orders == old(state)@.active_orders.remove(
                crate::state::active_idx(
                    old(state)@.active_orders,
                    o.source_maker,
                    o.pool_id,
                    o.destination_taker,
                ),
            )
            &&& final(state)@.pools == pools.update(
                i,
                GPool {
                    assets: assets_after_add(p.assets, o.deposits, o.deposits.len() as int),
                    supply: GCoin { denom: p.supply.denom, amount: p.supply.amount + shares },
                    ..p
                },
            )
            &&& eff@.len() == 0
        },
{
    let i: usize = match state.find_pool_index(&msg.pool_id) {
        Some(i) => i,
        None => {
            return Err(ContractError::PoolNotFound);
        },
    };
    proof {
        lemma_pool_idx_is(state@.pools, msg.pool_id@, i as int);
        assert(state@.pools[i as int].wf());
    }
    let oi: usize = match state.find_order_index(&msg.pool_id, msg.order_id) {
        Some(oi) => oi,
        None => {
            return Err(ContractError::ErrOrderNotFound);
        },
    };
    proof {
        lemma_order_idx_is(state@.orders, msg.pool_id@, msg.order_id as int, oi as int);
    }
    if !matches!(state.orders[oi].status, OrderStatus::Pending) {
        return Err(ContractError::ErrOrderAlreadyCompleted);
    }
    match state.find_pool_token_index(&msg.pool_id) {
        Some(_) => {},
        None => {
            return Err(ContractError::LpTokenNotInitialized);
        },
    }
    let ghost gtokens = state_change.pool_tokens@.map_values(|c: Coin| c@);
    let mut shares: u128 = 0;
    let mut k: usize = 0;
    let n: usize = state_change.pool_tokens.len();
    while k < n
        invariant
            n == state_change.pool_tokens@.len(),
            gtokens == state_change.pool_tokens@.map_values(|c: Coin| c@),
            k <= n,
            state@ == old(state)@,
            old(state)@.wf(),
            old(state)@.counter_wf(),
            has_pool(old(state)@.pools, msg.pool_id@),
            has_order(old(state)@.orders, msg.pool_id@, msg.order_id as int),
            i < old(state)@.pools.len(),
            i as int == pool_idx(old(state)@.pools, msg.pool_id@),
            oi < old(state)@.orders.len(),
            oi as int == order_idx(old(state)@.orders, msg.pool_id@, msg.order_id as int),
            old(state)@.orders[oi as int].status == OrderStatus::Pending,
            has_pool_token(old(state)@.pool_tokens, msg.pool_id@),
            shares == sum_amounts(gtokens, k as int),
            sums_fit(gtokens, k as int),
        decreases n - k,
    {
        let amt: u128 = state_change.pool_tokens[k].amount;
        if amt > u128::MAX - shares {
            proof {
                let ghost kk = k as int;
                assert(!sums_fit(gtokens, n as int)) by {
                    if sums_fit(gtokens, n as int) {
                        crate::receive::lemma_sums_fit_prefix(gtokens, kk + 1, n as int);
                    }
                }
            }
            return Err(ContractError::Overflow);
        }
        shares = shares + amt;
        k = k + 1;
    }
    let order = state.orders[oi].dup();
    let mut p2 = state.pools[i].dup();
    proof {
        assert(p2@.supply.denom == msg.pool_id@);
    }
    match p2.add_supply(Coin { denom: msg.pool_id.clone(), amount: shares }) {
        Ok(_) => {},
        Err(e) => {
            return Err(e);
        },
    }
    let ghost base_assets = old(state)@.pools[i as int].assets;
    let dn: usize = order.deposits.len();
    let mut d: usize = 0;
    while d < dn
        invariant
            dn == order.deposits@.len(),
            d <= dn,
            state@ == old(state)@,
            old(state)@.wf(),
            old(state)@.counter_wf(),
            has_pool(old(state)@.pools, msg.pool_id@),
            has_order(old(state)@.orders, msg.pool_id@, msg.order_id as int),
            oi < old(state)@.orders.len(),
            oi as int == order_idx(old(state)@.orders, msg.pool_id@, msg.order_id as int),
            old(state)@.orders[oi as int].status == OrderStatus::Pending,
            order@ == old(state)@.orders[oi as int],
            i < old(state)@.pools.len(),
            i as int == pool_idx(old(state)@.pools, msg.pool_id@),
            base_assets == old(state)@.pools[i as int].assets,
            can_add_all(base_assets, order@.deposits, d as int),
            n == state_change.pool_tokens@.len(),
            gtokens == state_change.pool_tokens@.map_values(|c: Coin| c@),
            sums_fit(gtokens, n as int),
            shares == sum_amounts(gtokens, n as int),
            has_pool_token(old(state)@.pool_tokens, msg.pool_id@),
            old(state)@.pools[i as int].supply.amount + shares <= u128::MAX,
            p2@ == (GPool {
                assets: assets_after_add(
                    old(state)@.pools[i as int].assets,
                    order@.deposits,
                    d as int,
                ),
                supply: GCoin {
                    denom: old(state)@.pools[i as int].supply.denom,
                    amount: old(state)@.pools[i as int].supply.amount + shares,
                },
                ..old(state)@.pools[i as int]
            }),
            p2@.wf(),
        decreases dn - d,
    {
        let ghost before = p2@;
        let tok = order.deposits[d].dup();
        let ghost gtok = tok@;
        match p2.add_asset(tok) {
            Ok(_) => {},
            Err(e) => {
                proof {
                    let ghost dd = d as int;
                    assert(!can_add_all(base_assets, order@.deposits, dn as int)) by {
                        if can_add_all(base_assets, order@.deposits, dn as int) {
                            crate::receive::lemma_can_add_prefix(
                                base_assets,
                                order@.deposits,
                                dd + 1,
                                dn as int,
                            );
                        }
                    }
                }
                return Err(e);
            },
        }
        proof {
            law_mutation_preserves_wf(
                before,
                p2@,
                denom_idx(before.assets, gtok.denom),
                before.assets[denom_idx(before.assets, gtok.denom)].balance.amount + gtok.amount,
            );
            assert(order@.deposits[d as int] == gtok);
            assert(can_add_all(base_assets, order@.deposits, d as int + 1));
            assert(p2@.assets =~= assets_after_add(
                old(state)@.pools[i as int].assets,
                order@.deposits,
                d as int + 1,
            ));
        }
        d = d + 1;
    }
    state.set_pool_at(i, p2);
    state.finish_order_at(oi, false);
    proof {
        assert forall|k2: int|
            0 <= k2 < state@.orders.len() implies (#[trigger] state@.orders[k2]).id
            <= state@.config.counter as int by {
            assert(state@.orders[k2].id == old(state)@.orders[k2].id);
        }
    }
    Ok(Vec::new())
}

/// Finalizes an acknowledged cancellation of a deposit order: cancels the
/// order, drops its index entry, and refunds the source-side deposit to
/// the maker.
fn ack_cancel_multi_deposit(
    state: &mut ContractState,
    env: &EnvInfo,
    msg: MsgCancelMultiAssetDepositRequest,
) -> (r: Result<Vec<TokenEffect>, ContractError>)
    requires
        old(state)@.wf(),
        old(state)@.counter_wf(),
    ensures
        final(state)@.wf(),
        final(state)@.counter_wf(),
        r is Err ==> final(state)@ == old(state)@,
        r is Ok <==> has_pool(old(state)@.pools, msg.pool_id@) && has_order(
            old(state)@.orders,
            msg.pool_id@,
            msg.order_id as int,
        ) && old(state)@.orders[order_idx(
            old(state)@.orders,
            msg.pool_id@,
            msg.order_id as int,
        )].status == OrderStatus::Pending && (exists|sx: int|
            0 <= sx < old(state)@.pools[pool_idx(old(state)@.pools, msg.pool_id@)].assets.len()
                && (#[trigger] old(state)@.pools[pool_idx(
                old(state)@.pools,
                msg.pool_id@,
            )].assets[sx]).side == PoolSide::SOURCE),
        r matches Ok(eff) ==> {
            let pools = old(state)@.pools;
            let orders = old(state)@.orders;
            let pid = msg.pool_id@;
            let oi = order_idx(orders, pid, msg.order_id as int);
            let o = orders[oi];
            &&& has_pool(pools, pid)
            &&& has_order(orders, pid, msg.order_id as int)
            &&& o.status == OrderStatus::Pending
            &&& final(state)@.orders == orders.update(
                oi,
                GOrder { status: OrderStatus::Cancelled, ..o },
            )
            &&& final(state)@.active_orders == old(state)@.active_orders.remove(
                crate::state::active_idx(
                    old(state)@.active_orders,
                    o.source_maker,
                    o.pool_id,
                    o.destination_taker,
                ),
            )
            &&& final(state)@.pools == pools
        },
{
    let i: usize = match state.find_pool_index(&msg.pool_id) {
        Some(i) => i,
        None => {
            return Err(ContractError::PoolNotFound);
        },
    };
    proof {
        lemma_pool_idx_is(state@.pools, msg.pool_id@, i as int);
    }
    let oi: usize = match state.find_order_index(&msg.pool_id, msg.order_id) {
        Some(oi) => oi,
        None => {
            return Err(ContractError::ErrOrderNotFound);
        },
    };
    proof {
        lemma_order_idx_is(state@.orders, msg.pool_id@, msg.order_id as int, oi as int);
    }
    if !matches!(state.orders[oi].status, OrderStatus::Pending) {
        return Err(ContractError::ErrOrderAlreadyCompleted);
    }
    let src_asset = match state.pools[i].find_asset_by_side(PoolSide::SOURCE) {
        Ok(a) => a,
        Err(e) => {
            proof {
                let ghost ga = state@.pools[i as int].assets;
                assert(!(exists|sx: int|
                    0 <= sx < ga.len() && (#[trigger] ga[sx]).side == PoolSide::SOURCE)) by {
                    if exists|sx: int|
                        0 <= sx < ga.len() && (#[trigger] ga[sx]).side == PoolSide::SOURCE {
                        let w = choose|sx: int|
                            0 <= sx < ga.len() && (#[trigger] ga[sx]).side == PoolSide::SOURCE;
                        assert((ga[w]).side != PoolSide::SOURCE);
                    }
                }
            }
            return Err(e);
        },
    };
    let order = state.orders[oi].dup();
    let mut effects: Vec<TokenEffect> = Vec::new();
    let dn: usize = order.deposits.len();
    let mut d: usize = 0;
    while d < dn
        invariant
            dn == order.deposits@.len(),
            d <= dn,
        decreases dn - d,
    {
        if order.deposits[d].denom == src_asset.balance.denom {
            effects.push(
                TokenEffect::SendCoin {
                    recipient: order.source_maker.clone(),
                    coin: order.deposits[d].dup(),
                },
            );
        }
        d = d + 1;
    }
    state.finish_order_at(oi, true);
    proof {
        assert forall|k2: int|
            0 <= k2 < state@.orders.len() implies (#[trigger] state@.orders[k2]).id
            <= state@.config.counter as int by {
            assert(state@.orders[k2].id == old(state)@.orders[k2].id);
        }
    }
    Ok(effects)
}

/// Finalizes an acknowledged withdrawal: debits the carried out-tokens and
/// the burned shares, pays this chain's leg to the receiver, and burns the
/// pulled share tokens.
fn ack_multi_withdraw(
    state: &mut ContractState,
    env: &EnvInfo,
    msg: MsgMultiAssetWithdrawRequest,
    state_change: StateChange,
) -> (r: Result<Vec<TokenEffect>, ContractError>)
    requires
        old(state)@.wf(),
    ensures
        final(state)@.wf(),
        r is Err ==> final(state)@ == old(state)@,
        r is Ok <==> has_pool(old(state)@.pools, msg.pool_id@) && has_pool_token(
            old(state)@.pool_tokens,
            msg.pool_id@,
        ) && {
            let p = old(state)@.pools[pool_idx(old(state)@.pools, msg.pool_id@)];
            let outs = state_change.out_tokens@.map_values(|c: Coin| c@);
            let burns = state_change.pool_tokens@.map_values(|c: Coin| c@);
            &&& (exists|sx: int|
                0 <= sx < p.assets.len() && (#[trigger] p.assets[sx]).side == PoolSide::SOURCE)
            &&& can_sub_all(p.assets, outs, outs.len() as int)
            &&& can_burn_all(p.supply.denom, p.supply.amount, burns, burns.len() as int)
        },
        r matches Ok(eff) ==> {
            let pools = old(state)@.pools;
            let pid = msg.pool_id@;
            let i = pool_idx(pools, pid);
            let p = pools[i];
            let outs = state_change.out_tokens@.map_values(|c: Coin| c@);
            let burns = state_change.pool_tokens@.map_values(|c: Coin| c@);
            let lp = old(state)@.pool_tokens[pool_token_idx(old(state)@.pool_tokens, pid)];
            &&& has_pool(pools, pid)
            &&& final(state)@ == (GState {
                pools: pools.update(
                    i,
                    GPool {
                        assets: assets_after_sub(p.assets, outs, outs.len() as int),
                        supply: GCoin {
                            denom: p.supply.denom,
                            amount: p.supply.amount - sum_amounts(burns, burns.len() as int),
                        },
                        ..p
                    },
                ),
                ..old(state)@
            })
            // This chain's leg goes to the receiver, and the pulled share
            // tokens are burnt last.
            &&& eff@.len() >= 1
            &&& (eff@[eff@.len() - 1] matches TokenEffect::BurnLp { lp_token, amount }
                && lp_token@ == lp.address && amount == msg.pool_token@.amount)
            &&& (forall|sx: int|
                #[trigger] first_source_idx_is(p.assets, sx) ==> {
                    let m = matching_outs(outs, p.assets[sx].balance.denom, outs.len() as int);
                    &&& eff@.len() == m.len() + 1
                    &&& forall|k: int|
                        0 <= k < m.len() ==> ((#[trigger] eff@[k]) matches
                            TokenEffect::SendCoin { recipient, coin } && recipient@
                            == msg.receiver@ && coin@ == m[k])
                })
        },
{
    let i: usize = match state.find_pool_index(&msg.pool_id) {
        Some(i) => i,
        None => {
            return Err(ContractError::PoolNotFound);
        },
    };
    proof {
        lemma_pool_idx_is(state@.pools, msg.pool_id@, i as int);
        assert(state@.pools[i as int].wf());
    }
    let ti: usize = match state.find_pool_token_index(&msg.pool_id) {
        Some(t) => t,
        None => {
            return Err(ContractError::LpTokenNotInitialized);
        },
    };
    let lp_token = state.pool_tokens[ti].address.clone();
    let ghost gp = state@.pools[i as int];
    let src_asset = match state.pools[i].find_asset_by_side(PoolSide::SOURCE) {
        Ok(a) => a,
        Err(e) => {
            proof {
                assert(!(exists|sx: int|
                    0 <= sx < gp.assets.len() && (#[trigger] gp.assets[sx]).side
                        == PoolSide::SOURCE)) by {
                    if exists|sx: int|
                        0 <= sx < gp.assets.len() && (#[trigger] gp.assets[sx]).side
                            == PoolSide::SOURCE {
                        let w = choose|sx: int|
                            0 <= sx < gp.assets.len() && (#[trigger] gp.assets[sx]).side
                                == PoolSide::SOURCE;
                        assert((gp.assets[w]).side != PoolSide::SOURCE);
                    }
                }
            }
            return Err(e);
        },
    };
    let ghost srcidx: int = choose|sx: int|
        0 <= sx < gp.assets.len() && (#[trigger] gp.assets[sx]).side == PoolSide::SOURCE
            && gp.assets[sx] == src_asset@ && (forall|j: int|
            0 <= j < sx ==> (#[trigger] gp.assets[j]).side != PoolSide::SOURCE);
    proof {
        assert(first_source_idx_is(gp.assets, srcidx));
    }
    let ghost srcdenom = gp.assets[srcidx].balance.denom;
    let mut effects: Vec<TokenEffect> = Vec::new();
    let mut p2 = state.pools[i].dup();
    let ghost outs = state_change.out_tokens@.map_values(|c: Coin| c@);
    let n: usize = state_change.out_tokens.len();
    let mut k: usize = 0;
    while k < n
        invariant
            n == state_change.out_tokens@.len(),
            outs == state_change.out_tokens@.map_values(|c: Coin| c@),
            k <= n,
            state@ == old(state)@,
            old(state)@.wf(),
            has_pool(old(state)@.pools, msg.pool_id@),
            has_pool_token(old(state)@.pool_tokens, msg.pool_id@),
            i < old(state)@.pools.len(),
            i as int == pool_idx(old(state)@.pools, msg.pool_id@),
            gp == old(state)@.pools[i as int],
            first_source_idx_is(gp.assets, srcidx),
            0 <= srcidx < gp.assets.len(),
            srcdenom == gp.assets[srcidx].balance.denom,
            srcdenom == src_asset@.balance.denom,
            can_sub_all(gp.assets, outs, k as int),
            effects@.len() == matching_outs(outs, srcdenom, k as int).len(),
            forall|j: int|
                0 <= j < effects@.len() ==> ((#[trigger] effects@[j]) matches
                    TokenEffect::SendCoin { recipient, coin } && recipient@ == msg.receiver@
                    && coin@ == matching_outs(outs, srcdenom, k as int)[j]),
            p2@ == (GPool {
                assets: assets_after_sub(old(state)@.pools[i as int].assets, outs, k as int),
                ..old(state)@.pools[i as int]
            }),
            p2@.wf(),
        decreases n - k,
    {
        let ghost kk = k as int;
        let tok = state_change.out_tokens[k].dup();
        if tok.denom == src_asset.balance.denom {
            effects.push(
                TokenEffect::SendCoin { recipient: msg.receiver.clone(), coin: tok.dup() },
            );
        }
        proof {
            assert(outs[kk] == tok@);
            assert(matching_outs(outs, srcdenom, kk + 1) == if outs[kk].denom == srcdenom {
                matching_outs(outs, srcdenom, kk).push(outs[kk])
            } else {
                matching_outs(outs, srcdenom, kk)
            });
        }
        let ghost before = p2@;
        let ghost gtok = tok@;
        match p2.subtract_asset(tok) {
            Ok(_) => {},
            Err(e) => {
                proof {
                    assert(!can_sub_all(gp.assets, outs, n as int)) by {
                        if can_sub_all(gp.assets, outs, n as int) {
                            crate::receive::lemma_can_sub_prefix(gp.assets, outs, kk + 1, n as int);
                        }
                    }
                }
                return Err(e);
            },
        }
        proof {
            law_mutation_preserves_wf(
                before,
                p2@,
                denom_idx(before.assets, gtok.denom),
                before.assets[denom_idx(before.assets, gtok.denom)].balance.amount - gtok.amount,
            );
            assert(can_sub_all(gp.assets, outs, kk + 1));
            assert(p2@.assets =~= assets_after_sub(
                old(state)@.pools[i as int].assets,
                outs,
                kk + 1,
            ));
        }
        k = k + 1;
    }
    let ghost burns = state_change.pool_tokens@.map_values(|c: Coin| c@);
    let bn: usize = state_change.pool_tokens.len();
    let mut b: usize = 0;
    while b < bn
        invariant
            bn == state_change.pool_tokens@.len(),
            burns == state_change.pool_tokens@.map_values(|c: Coin| c@),
            b <= bn,
            state@ == old(state)@,
            old(state)@.wf(),
            has_pool(old(state)@.pools, msg.pool_id@),
            has_pool_token(old(state)@.pool_tokens, msg.pool_id@),
            ti < old(state)@.pool_tokens.len(),
            ti as int == pool_token_idx(old(state)@.pool_tokens, msg.pool_id@),
            lp_token@ == old(state)@.pool_tokens[ti as int].address,
            i < old(state)@.pools.len(),
            i as int == pool_idx(old(state)@.pools, msg.pool_id@),
            gp == old(state)@.pools[i as int],
            first_source_idx_is(gp.assets, srcidx),
            0 <= srcidx < gp.assets.len(),
            srcdenom == gp.assets[srcidx].balance.denom,
            n == state_change.out_tokens@.len(),
            outs == state_change.out_tokens@.map_values(|c: Coin| c@),
            can_sub_all(gp.assets, outs, n as int),
            can_burn_all(gp.supply.denom, gp.supply.amount, burns, b as int),
            effects@.len() == matching_outs(outs, srcdenom, n as int).len(),
            forall|j: int|
                0 <= j < effects@.len() ==> ((#[trigger] effects@[j]) matches
                    TokenEffect::SendCoin { recipient, coin } && recipient@ == msg.receiver@
                    && coin@ == matching_outs(outs, srcdenom, n as int)[j]),
            p2@ == (GPool {
                assets: assets_after_sub(old(state)@.pools[i as int].assets, outs, n as int),
                supply: GCoin {
                    denom: old(state)@.pools[i as int].supply.denom,
                    amount: old(state)@.pools[i as int].supply.amount - sum_amounts(
                        burns,
                        b as int,
                    ),
                },
                ..old(state)@.pools[i as int]
            }),
            p2@.wf(),
        decreases bn - b,
    {
        let ghost bb = b as int;
        let tok = state_change.pool_tokens[b].dup();
        proof {
            assert(burns[bb] == tok@);
        }
        match p2.subtract_supply(tok) {
            Ok(_) => {},
            Err(e) => {
                proof {
                    assert(!can_burn_all(gp.supply.denom, gp.supply.amount, burns, bn as int))
                        by {
                        if can_burn_all(gp.supply.denom, gp.supply.amount, burns, bn as int) {
                            crate::receive::lemma_can_burn_prefix(
                                gp.supply.denom,
                                gp.supply.amount,
                                burns,
                                bb + 1,
                                bn as int,
                            );
                        }
                    }
                }
                return Err(e);
            },
        }
        proof {
            assert(can_burn_all(gp.supply.denom, gp.supply.amount, burns, bb + 1));
        }
        b = b + 1;
    }
    state.set_pool_at(i, p2);
    effects.push(TokenEffect::BurnLp { lp_token, amount: msg.pool_token.amount });
    proof {
        lemma_first_source_unique(gp.assets, srcidx);
        assert forall|sx: int| #[trigger] first_source_idx_is(gp.assets, sx) implies sx
            == srcidx by {}
    }
    Ok(effects)
}

/// Finalizes an acknowledged swap: moves the pool balances in the swap's
/// direction; the output was already released on the receiving side.
fn ack_swap(
    state: &mut ContractState,
    env: &EnvInfo,
    msg: MsgSwapRequest,
    state_change: StateChange,
) -> (r: Result<Vec<TokenEffect>, ContractError>)
    requires
        old(state)@.wf(),
    ensures
        final(state)@.wf(),
        r is Err ==> final(state)@ == old(state)@,
        ({
            let tout = (state_change.out_tokens@[0])@;
            let added = if msg.swap_type == SwapMsgType::LEFT {
                msg.token_in@
            } else {
                tout
            };
            let removed = if msg.swap_type == SwapMsgType::LEFT {
                tout
            } else {
                msg.token_out@
            };
            r is Ok <==> has_pool(old(state)@.pools, msg.pool_id@)
                && state_change.out_tokens@.len() >= 1 && {
                let p = old(state)@.pools[pool_idx(old(state)@.pools, msg.pool_id@)];
                &&& can_add_all(p.assets, seq![added], 1)
                &&& can_sub_all(assets_after_add(p.assets, seq![added], 1), seq![removed], 1)
            }
        }),
        r matches Ok(eff) ==> {
            let pools = old(state)@.pools;
            let pid = msg.pool_id@;
            let i = pool_idx(pools, pid);
            let p = pools[i];
            &&& has_pool(pools, pid)
            &&& state_change.out_tokens@.len() >= 1
            &&& {
                let tout = (state_change.out_tokens@[0])@;
                let added = if msg.swap_type == SwapMsgType::LEFT {
                    msg.token_in@
                } else {
                    tout
                };
                let removed = if msg.swap_type == SwapMsgType::LEFT {
                    tout
                } else {
                    msg.token_out@
                };
                final(state)@ == (GState {
                    pools: pools.update(
                        i,
                        GPool {
                            assets: assets_after_sub(
                                assets_after_add(p.assets, seq![added], 1),
                                seq![removed],
                                1,
                            ),
                            ..p
                        },
                    ),
                    ..old(state)@
                })
            }
            &&& eff@.len() == 0
        },
{
    let i: usize = match state.find_pool_index(&msg.pool_id) {
        Some(i) => i,
        None => {
            return Err(ContractError::PoolNotFound);
        },
    };
    proof {
        lemma_pool_idx_is(state@.pools, msg.pool_id@, i as int);
        assert(state@.pools[i as int].wf());
    }
    if state_change.out_tokens.len() == 0 {
        return Err(ContractError::MalformedPacket);
    }
    let token_out = state_change.out_tokens[0].dup();
    let mut p2 = state.pools[i].dup();
    let added: Coin = match msg.swap_type {
        SwapMsgType::LEFT => msg.token_in.dup(),
        SwapMsgType::RIGHT => token_out.dup(),
    };
    let removed: Coin = match msg.swap_type {
        SwapMsgType::LEFT => token_out.dup(),
        SwapMsgType::RIGHT => msg.token_out.dup(),
    };
    let ghost before = p2@;
    let ghost gadd = added@;
    match p2.add_asset(added) {
        Ok(_) => {},
        Err(e) => {
            proof {
                assert(assets_after_add(before.assets, seq![gadd], 0) == before.assets);
                assert(seq![gadd][0] == gadd);
                assert(!can_add_all(before.assets, seq![gadd], 1));
            }
            return Err(e);
        },
    }
    proof {
        law_mutation_preserves_wf(
            before,
            p2@,
            denom_idx(before.assets, gadd.denom),
            before.assets[denom_idx(before.assets, gadd.denom)].balance.amount + gadd.amount,
        );
        assert(assets_after_add(before.assets, seq![gadd], 0) == before.assets);
        assert(seq![gadd][0] == gadd);
        assert(can_add_all(before.assets, seq![gadd], 0));
        assert(can_add_all(before.assets, seq![gadd], 1));
        assert(p2@.assets =~= assets_after_add(before.assets, seq![gadd], 1));
    }
    let ghost mid = p2@;
    let ghost grem = removed@;
    match p2.subtract_asset(removed) {
        Ok(_) => {},
        Err(e) => {
            proof {
                assert(assets_after_sub(mid.assets, seq![grem], 0) == mid.assets);
                assert(seq![grem][0] == grem);
                assert(!can_sub_all(mid.assets, seq![grem], 1));
            }
            return Err(e);
        },
    }
    proof {
        law_mutation_preserves_wf(
            mid,
            p2@,
            denom_idx(mid.assets, grem.denom),
            mid.assets[denom_idx(mid.assets, grem.denom)].balance.amount - grem.amount,
        );
        assert(assets_after_sub(mid.assets, seq![grem], 0) == mid.assets);
        assert(seq![grem][0] == grem);
        assert(can_sub_all(mid.assets, seq![grem], 0));
        assert(can_sub_all(mid.assets, seq![grem], 1));
        assert(p2@.assets =~= assets_after_sub(mid.assets, seq![grem], 1));
    }
    state.set_pool_at(i, p2);
    Ok(Vec::new())
}

/// Finalizes the local optimistic state once the counterparty acknowledged
/// the packet successfully.
pub fn on_packet_success(
    state: &mut ContractState,
    env: &EnvInfo,
    packet: IBCSwapPacketData,
) -> (r: Result<Vec<TokenEffect>, ContractError>)
    requires
        old(state)@.wf(),
        old(state)@.counter_wf(),
    ensures
        final(state)@.wf(),
        final(state)@.counter_wf(),
        r is Err ==> final(state)@ == old(state)@,
        packet.payload matches PacketPayload::MakePool(_) ==> final(state)@ == old(state)@,
        packet.payload matches PacketPayload::MakeMultiDeposit(_) ==> final(state)@ == old(
            state,
        )@,
        packet.payload matches PacketPayload::Unspecified ==> (r matches Ok(eff)
            && eff@.len() == 0 && final(state)@ == old(state)@),
        packet.payload matches PacketPayload::MakePool(_) ==> (r matches Ok(eff) && eff@.len()
            == 0),
        packet.payload matches PacketPayload::MakeMultiDeposit(_) ==> (r matches Ok(eff)
            && eff@.len() == 0),
        packet.payload matches PacketPayload::TakePool(m) ==> {
                &&& (({
                    let pools = old(state)@.pools;
                    let pid = m.pool_id@;
                    &&& (!has_pool(pools, pid) ==> r == Err::<Vec<TokenEffect>, ContractError>(
                        ContractError::PoolNotFound,
                    ))
                    &&& (has_pool(pools, pid) ==> {
                        let i = pool_idx(pools, pid);
                        let p = pools[i];
                        let toks = seq![p.assets[0].balance, p.assets[1].balance];
                        let shares = if p.supply.amount == 0 {
                            INIT_LP_TOKENS * MULTIPLIER
                        } else {
                            multi_minted(p.assets, toks, p.supply.amount)
                        };
                        // A late or replayed acknowledgement on an already active
                        // pool must not mint again.
                        &&& (r == Err::<Vec<TokenEffect>, ContractError>(ContractError::InvalidStatus)
                            <==> p.status != PoolStatus::Initialized)
                        &&& (r is Ok <==> p.status == PoolStatus::Initialized && p.assets.len() == 2 && (
                        p.supply.amount == 0 || (crate::market::multi_ok(p.assets, toks)
                            && crate::market::multi_fits(p.assets, toks, p.supply.amount)))
                            && p.supply.amount + shares <= u128::MAX)
                        &&& (r matches Ok(eff) ==> {
                            &&& final(state)@ == (GState {
                                pools: pools.update(
                                    i,
                                    GPool {
                                        supply: GCoin {
                                            denom: p.supply.denom,
                                            amount: p.supply.amount + shares,
                                        },
                                        status: PoolStatus::Active,
                                        ..p
                                    },
                                ),
                                ..old(state)@
                            })
                            &&& eff@.len() == 0
                        })
                    })
                }))
        },
        packet.payload matches PacketPayload::CancelPool(m) ==> {
                &&& (!has_pool(old(state)@.pools, m.pool_id@) ==> r == Err::<Vec<TokenEffect>, ContractError>(
                    ContractError::PoolNotFound,
                ))
                &&& (has_pool(old(state)@.pools, m.pool_id@) ==> (r == Err::<Vec<TokenEffect>, ContractError>(
                    ContractError::InvalidStatus,
                ) <==> old(state)@.pools[pool_idx(old(state)@.pools, m.pool_id@)].status
                    != PoolStatus::Initialized))
                &&& (r is Ok <==> has_pool(old(state)@.pools, m.pool_id@) && {
                    let p = old(state)@.pools[pool_idx(old(state)@.pools, m.pool_id@)];
                    &&& p.status == PoolStatus::Initialized
                    &&& (exists|sx: int|
                        0 <= sx < p.assets.len() && (#[trigger] p.assets[sx]).side == PoolSide::SOURCE)
                })
                &&& (r matches Ok(eff) ==> {
                    let pools = old(state)@.pools;
                    let pid = m.pool_id@;
                    let i = pool_idx(pools, pid);
                    let p = pools[i];
                    &&& has_pool(pools, pid)
                    &&& final(state)@.pools == pools.remove(i)
                    &&& (has_pool_token(old(state)@.pool_tokens, pid)
                        ==> final(state)@.pool_tokens == old(state)@.pool_tokens.remove(
                        pool_token_idx(old(state)@.pool_tokens, pid),
                    ))
                    &&& (!has_pool_token(old(state)@.pool_tokens, pid)
                        ==> final(state)@.pool_tokens == old(state)@.pool_tokens)
                    &&& final(state)@.orders == old(state)@.orders
                    &&& final(state)@.active_orders == old(state)@.active_orders
                    &&& final(state)@.config == old(state)@.config
                    &&& eff@.len() == 1
                    &&& (eff@[0] matches TokenEffect::SendCoin { recipient, coin } && recipient@
                        == p.source_creator)
                })
        },
        packet.payload matches PacketPayload::SingleAssetDeposit(m) ==> {
            &&& (packet.state_change is None ==> r == Err::<Vec<TokenEffect>, ContractError>(
                ContractError::MalformedPacket,
            ))
            &&& (packet.state_change matches Some(c) ==> {
                &&& (r is Ok <==> has_pool(old(state)@.pools, m.pool_id@)
                    && c.pool_tokens@.len() >= 1 && has_pool_token(
                    old(state)@.pool_tokens,
                    m.pool_id@,
                ) && {
                    let p = old(state)@.pools[pool_idx(old(state)@.pools, m.pool_id@)];
                    let shares = (c.pool_tokens@[0])@;
                    &&& has_denom(p.assets, m.token@.denom)
                    &&& p.assets[crate::market::denom_idx(p.assets, m.token@.denom)].balance.amount
                        + m.token@.amount <= u128::MAX
                    &&& shares.denom == p.supply.denom
                    &&& p.supply.amount + shares.amount <= u128::MAX
                })
                &&& (r matches Ok(eff) ==> {
                    let pools = old(state)@.pools;
                    let pid = m.pool_id@;
                    let i = pool_idx(pools, pid);
                    let p = pools[i];
                    let shares = (c.pool_tokens@[0])@;
                    &&& has_pool(pools, pid)
                    &&& c.pool_tokens@.len() >= 1
                    &&& final(state)@ == (GState {
                        pools: pools.update(
                            i,
                            GPool {
                                assets: assets_after_add(p.assets, seq![m.token@], 1),
                                supply: GCoin {
                                    denom: p.supply.denom,
                                    amount: p.supply.amount + shares.amount,
                                },
                                ..p
                            },
                        ),
                        ..old(state)@
                    })
                    &&& eff@.len() == 1
                    &&& (eff@[0] matches TokenEffect::MintLp { recipient, lp_token, amount } && recipient@
                        == m.sender@ && amount == shares.amount)
                })
            })
        },
        packet.payload matches PacketPayload::TakeMultiDeposit(m) ==> {
            &&& (packet.state_change is None ==> r == Err::<Vec<TokenEffect>, ContractError>(
                ContractError::MalformedPacket,
            ))
            &&& (packet.state_change matches Some(c) ==> {
                &&& (r is Ok <==> has_pool(old(state)@.pools, m.pool_id@) && has_order(
                    old(state)@.orders,
                    m.pool_id@,
                    m.order_id as int,
                ) && {
                    let p = old(state)@.pools[pool_idx(old(state)@.pools, m.pool_id@)];
                    let o = old(state)@.orders[order_idx(
                        old(state)@.orders,
                        m.pool_id@,
                        m.order_id as int,
                    )];
                    let gtokens = c.pool_tokens@.map_values(|c: Coin| c@);
                    &&& o.status == OrderStatus::Pending
                    &&& sums_fit(gtokens, gtokens.len() as int)
                    &&& has_pool_token(old(state)@.pool_tokens, m.pool_id@)
                    &&& p.supply.amount + sum_amounts(gtokens, gtokens.len() as int) <= u128::MAX
                    &&& can_add_all(p.assets, o.deposits, o.deposits.len() as int)
                })
                &&& (r matches Ok(eff) ==> {
                    let pools = old(state)@.pools;
                    let orders = old(state)@.orders;
                    let pid = m.pool_id@;
                    let i = pool_idx(pools, pid);
                    let oi = order_idx(orders, pid, m.order_id as int);
                    let p = pools[i];
                    let o = orders[oi];
                    let shares = sum_amounts(
                        c.pool_tokens@.map_values(|c: Coin| c@),
                        c.pool_tokens@.len() as int,
                    );
                    &&& has_pool(pools, pid)
                    &&& has_order(orders, pid, m.order_id as int)
                    &&& o.status == OrderStatus::Pending
                    &&& final(state)@.orders == orders.update(
                        oi,
                        GOrder { status: OrderStatus::Complete, ..o },
                    )
                    &&& final(state)@.active_orders == old(state)@.active_orders.remove(
                        crate::state::active_idx(
                            old(state)@.active_orders,
                            o.source_maker,
                            o.pool_id,
                            o.destination_taker,
                        ),
                    )
                    &&& final(state)@.pools == pools.update(
                        i,
                        GPool {
                            assets: assets_after_add(p.assets, o.deposits, o.deposits.len() as int),
                            supply: GCoin { denom: p.supply.denom, amount: p.supply.amount + shares },
                            ..p
                        },
                    )
                    &&& eff@.len() == 0
                })
            })
        },
        packet.payload matches PacketPayload::CancelMultiDeposit(m) ==> {
                &&& (r is Ok <==> has_pool(old(state)@.pools, m.pool_id@) && has_order(
                    old(state)@.orders,
                    m.pool_id@,
                    m.order_id as int,
                ) && old(state)@.orders[order_idx(
                    old(state)@.orders,
                    m.pool_id@,
                    m.order_id as int,
                )].status == OrderStatus::Pending && (exists|sx: int|
                    0 <= sx < old(state)@.pools[pool_idx(old(state)@.pools, m.pool_id@)].assets.len()
                        && (#[trigger] old(state)@.pools[pool_idx(
                        old(state)@.pools,
                        m.pool_id@,
                    )].assets[sx]).side == PoolSide::SOURCE))
                &&& (r matches Ok(eff) ==> {
                    let pools = old(state)@.pools;
                    let orders = old(state)@.orders;
                    let pid = m.pool_id@;
                    let oi = order_idx(orders, pid, m.order_id as int);
                    let o = orders[oi];
                    &&& has_pool(pools, pid)
                    &&& has_order(orders, pid, m.order_id as int)
                    &&& o.status == OrderStatus::Pending
                    &&& final(state)@.orders == orders.update(
                        oi,
                        GOrder { status: OrderStatus::Cancelled, ..o },
                    )
                    &&& final(state)@.active_orders == old(state)@.active_orders.remove(
                        crate::state::active_idx(
                            old(state)@.active_orders,
                            o.source_maker,
                            o.pool_id,
                            o.destination_taker,
                        ),
                    )
                    &&& final(state)@.pools == pools
                })
        },
        packet.payload matches PacketPayload::MultiWithdraw(m) ==> {
            &&& (packet.state_change is None ==> r == Err::<Vec<TokenEffect>, ContractError>(
                ContractError::MalformedPacket,
            ))
            &&& (packet.state_change matches Some(c) ==> {
                &&& (r is Ok <==> has_pool(old(state)@.pools, m.pool_id@) && has_pool_token(
                    old(state)@.pool_tokens,
                    m.pool_id@,
                ) && {
                    let p = old(state)@.pools[pool_idx(old(state)@.pools, m.pool_id@)];
                    let outs = c.out_tokens@.map_values(|c: Coin| c@);
                    let burns = c.pool_tokens@.map_values(|c: Coin| c@);
                    &&& (exists|sx: int|
                        0 <= sx < p.assets.len() && (#[trigger] p.assets[sx]).side == PoolSide::SOURCE)
                    &&& can_sub_all(p.assets, outs, outs.len() as int)
                    &&& can_burn_all(p.supply.denom, p.supply.amount, burns, burns.len() as int)
                })
                &&& (r matches Ok(eff) ==> {
                    let pools = old(state)@.pools;
                    let pid = m.pool_id@;
                    let i = pool_idx(pools, pid);
                    let p = pools[i];
                    let outs = c.out_tokens@.map_values(|c: Coin| c@);
                    let burns = c.pool_tokens@.map_values(|c: Coin| c@);
                    let lp = old(state)@.pool_tokens[pool_token_idx(old(state)@.pool_tokens, pid)];
                    &&& has_pool(pools, pid)
                    &&& final(state)@ == (GState {
                        pools: pools.update(
                            i,
                            GPool {
                                assets: assets_after_sub(p.assets, outs, outs.len() as int),
                                supply: GCoin {
                                    denom: p.supply.denom,
                                    amount: p.supply.amount - sum_amounts(burns, burns.len() as int),
                                },
                                ..p
                            },
                        ),
                        ..old(state)@
                    })
                    // This chain's leg goes to the receiver, and the pulled share
                    // tokens are burnt last.
                    &&& eff@.len() >= 1
                    &&& (eff@[eff@.len() - 1] matches TokenEffect::BurnLp { lp_token, amount }
                        && lp_token@ == lp.address && amount == m.pool_token@.amount)
                    &&& (forall|sx: int|
                        #[trigger] first_source_idx_is(p.assets, sx) ==> {
                            let mo = matching_outs(
                                outs,
                                p.assets[sx].balance.denom,
                                outs.len() as int,
                            );
                            &&& eff@.len() == mo.len() + 1
                            &&& forall|k: int|
                                0 <= k < mo.len() ==> ((#[trigger] eff@[k]) matches
                                    TokenEffect::SendCoin { recipient, coin } && recipient@
                                    == m.receiver@ && coin@ == mo[k])
                        })
                })
            })
        },
        packet.payload matches PacketPayload::Swap(m) ==> {
            &&& (packet.state_change is None ==> r == Err::<Vec<TokenEffect>, ContractError>(
                ContractError::MalformedPacket,
            ))
            &&& (packet.state_change matches Some(c) ==> {
                &&& (({
                    let tout = (c.out_tokens@[0])@;
                    let added = if m.swap_type == SwapMsgType::LEFT {
                        m.token_in@
                    } else {
                        tout
                    };
                    let removed = if m.swap_type == SwapMsgType::LEFT {
                        tout
                    } else {
                        m.token_out@
                    };
                    r is Ok <==> has_pool(old(state)@.pools, m.pool_id@)
                        && c.out_tokens@.len() >= 1 && {
                        let p = old(state)@.pools[pool_idx(old(state)@.pools, m.pool_id@)];
                        &&& can_add_all(p.assets, seq![added], 1)
                        &&& can_sub_all(assets_after_add(p.assets, seq![added], 1), seq![removed], 1)
                    }
                }))
                &&& (r matches Ok(eff) ==> {
                    let pools = old(state)@.pools;
                    let pid = m.pool_id@;
                    let i = pool_idx(pools, pid);
                    let p = pools[i];
                    &&& has_pool(pools, pid)
                    &&& c.out_tokens@.len() >= 1
                    &&& {
                        let tout = (c.out_tokens@[0])@;
                        let added = if m.swap_type == SwapMsgType::LEFT {
                            m.token_in@
                        } else {
                            tout
                        };
                        let removed = if m.swap_type == SwapMsgType::LEFT {
                            tout
                        } else {
                            m.token_out@
                        };
                        final(state)@ == (GState {
                            pools: pools.update(
                                i,
                                GPool {
                                    assets: assets_after_sub(
                                        assets_after_add(p.assets, seq![added], 1),
                                        seq![removed],
                                        1,
                                    ),
                                    ..p
                                },
                            ),
                            ..old(state)@
                        })
                    }
                    &&& eff@.len() == 0
                })
            })
        },
{
    let sc: Option<StateChange> = packet.state_change;
    match packet.payload {
        PacketPayload::Unspecified => Ok(Vec::new()),
        PacketPayload::MakePool(_) => Ok(Vec::new()),
        PacketPayload::TakePool(msg) => {
            let r = ack_take_pool(state, env, msg);
            proof {
                if r is Ok {
                    lemma_counter_transfers(old(state)@, state@);
                }
            }
            r
        },
        PacketPayload::CancelPool(msg) => {
            let r = ack_cancel_pool(state, env, msg);
            proof {
                if r is Ok {
                    lemma_counter_transfers(old(state)@, state@);
                }
            }
            r
        },
        PacketPayload::SingleAssetDeposit(msg) => {
            let change = match sc {
                Some(c) => c,
                None => {
                    return Err(ContractError::MalformedPacket);
                },
            };
            let r = ack_single_deposit(state, env, msg, change);
            proof {
                if r is Ok {
                    lemma_counter_transfers(old(state)@, state@);
                }
            }
            r
        },
        PacketPayload::MakeMultiDeposit(_) => Ok(Vec::new()),
        PacketPayload::TakeMultiDeposit(msg) => {
            let change = match sc {
                Some(c) => c,
                None => {
                    return Err(ContractError::MalformedPacket);
                },
            };
            ack_take_multi_deposit(state, env, msg, change)
        },
        PacketPayload::CancelMultiDeposit(msg) => ack_cancel_multi_deposit(state, env, msg),
        PacketPayload::MultiWithdraw(msg) => {
            let change = match sc {
                Some(c) => c,
                None => {
                    return Err(ContractError::MalformedPacket);
                },
            };
            let r = ack_multi_withdraw(state, env, msg, change);
            proof {
                if r is Ok {
                    lemma_counter_transfers(old(state)@, state@);
                }
            }
            r
        },
        PacketPayload::Swap(msg) => {
            let change = match sc {
                Some(c) => c,
                None => {
                    return Err(ContractError::MalformedPacket);
                },
            };
            let r = ack_swap(state, env, msg, change);
            proof {
                if r is Ok {
                    lemma_counter_transfers(old(state)@, state@);
                }
            }
            r
        },
    }
}

/// The counter bound transfers whenever the orders and the configuration
/// did not change.
proof fn lemma_counter_transfers(before: GState, after: GState)
    requires
        before.counter_wf(),
        after.orders == before.orders,
        after.config == before.config,
    ensures
        after.counter_wf(),
{
    assert forall|i: int|
        0 <= i < after.orders.len() implies (#[trigger] after.orders[i]).id
        <= after.config.counter as int by {
        assert(before.orders[i].id <= before.config.counter as int);
    }
}


/// Rolls back a failed make-pool: refunds the creator's escrow and deletes
/// the tentative pool and share-token records.
fn refund_make_pool(
    state: &mut ContractState,
    env: &EnvInfo,
    msg: crate::types::MsgMakePoolRequest,
) -> (r: Result<Vec<TokenEffect>, ContractError>)
    requires
        old(state)@.wf(),
        old(state)@.counter_wf(),
    ensures
        final(state)@.wf(),
        final(state)@.counter_wf(),
        r is Err ==> final(state)@ == old(state)@,
        ({
            let liq = msg.liquidity@.map_values(|a: crate::market::PoolAsset| a@);
            let pid = crate::handlers::pool_id_of(
                liq[0].balance.denom,
                liq[1].balance.denom,
                env.chain_id@,
                msg.destination_chain_id@,
            );
            &&& (r is Ok <==> msg.liquidity@.len() == 2)
            &&& (r matches Ok(eff) ==> {
                &&& eff@.len() == 1
                &&& (eff@[0] matches TokenEffect::SendCoin { recipient, coin } && recipient@
                    == msg.creator@ && coin@ == liq[0].balance)
                &&& (has_pool(old(state)@.pools, pid) ==> final(state)@.pools == old(
                    state,
                )@.pools.remove(pool_idx(old(state)@.pools, pid)))
                &&& (!has_pool(old(state)@.pools, pid) ==> final(state)@.pools == old(
                    state,
                )@.pools)
                &&& (has_pool_token(old(state)@.pool_tokens, pid)
                    ==> final(state)@.pool_tokens == old(state)@.pool_tokens.remove(
                    pool_token_idx(old(state)@.pool_tokens, pid),
                ))
                &&& (!has_pool_token(old(state)@.pool_tokens, pid)
                    ==> final(state)@.pool_tokens == old(state)@.pool_tokens)
                &&& final(state)@.orders == old(state)@.orders
                &&& final(state)@.active_orders == old(state)@.active_orders
                &&& final(state)@.config == old(state)@.config
            })
        }),
{
    if msg.liquidity.len() != 2 {
        return Err(ContractError::InvalidAssetInput);
    }
    let pool_id = derive_pool_id(
        &msg.liquidity[0].balance.denom,
        &msg.liquidity[1].balance.denom,
        &env.chain_id,
        &msg.destination_chain_id,
    );
    let mut effects: Vec<TokenEffect> = Vec::new();
    effects.push(
        TokenEffect::SendCoin {
            recipient: msg.creator.clone(),
            coin: msg.liquidity[0].balance.dup(),
        },
    );
    match state.find_pool_index(&pool_id) {
        Some(i) => {
            proof {
                lemma_pool_idx_is(state@.pools, pool_id@, i as int);
            }
            state.remove_pool_at(i);
        },
        None => {},
    }
    match state.find_pool_token_index(&pool_id) {
        Some(t) => {
            proof {
                lemma_pool_token_idx_is(state@.pool_tokens, pool_id@, t as int);
            }
            state.remove_pool_token_at(t);
        },
        None => {},
    }
    proof {
        lemma_counter_transfers(old(state)@, state@);
    }
    Ok(effects)
}

/// Rolls back a failed make-deposit: refunds the maker's leg and deletes
/// the tentative pending order together with its index entry.
fn refund_make_multi_deposit(
    state: &mut ContractState,
    msg: crate::types::MsgMakeMultiAssetDepositRequest,
    oid: u64,
) -> (r: Result<Vec<TokenEffect>, ContractError>)
    requires
        old(state)@.wf(),
        old(state)@.counter_wf(),
        msg.deposits@.len() == 2,
    ensures
        final(state)@.wf(),
        final(state)@.counter_wf(),
        r is Ok,
        r matches Ok(eff) ==> {
            let orders = old(state)@.orders;
            let pid = msg.pool_id@;
            &&& eff@.len() == 1
            &&& (eff@[0] matches TokenEffect::SendCoin { recipient, coin } && recipient@
                == msg.deposits@[0].sender@ && coin@ == msg.deposits@[0].balance@)
            &&& (has_order(orders, pid, oid as int) && orders[order_idx(
                orders,
                pid,
                oid as int,
            )].status == OrderStatus::Pending ==> {
                let o = orders[order_idx(orders, pid, oid as int)];
                &&& final(state)@.orders == orders.remove(order_idx(orders, pid, oid as int))
                &&& final(state)@.active_orders == old(state)@.active_orders.remove(
                    crate::state::active_idx(
                        old(state)@.active_orders,
                        o.source_maker,
                        o.pool_id,
                        o.destination_taker,
                    ),
                )
            })
            &&& (!(has_order(orders, pid, oid as int) && orders[order_idx(
                orders,
                pid,
                oid as int,
            )].status == OrderStatus::Pending) ==> final(state)@.orders == orders
                && final(state)@.active_orders == old(state)@.active_orders)
            &&& final(state)@.pools == old(state)@.pools
            &&& final(state)@.pool_tokens == old(state)@.pool_tokens
            &&& final(state)@.config == old(state)@.config
        },
{
    let mut effects: Vec<TokenEffect> = Vec::new();
    effects.push(
        TokenEffect::SendCoin {
            recipient: msg.deposits[0].sender.clone(),
            coin: msg.deposits[0].balance.dup(),
        },
    );
    match state.find_order_index(&msg.pool_id, oid) {
        Some(oi) => {
            proof {
                lemma_order_idx_is(state@.orders, msg.pool_id@, oid as int, oi as int);
            }
            if matches!(state.orders[oi].status, OrderStatus::Pending) {
                state.remove_pending_order_at(oi);
                proof {
                    assert forall|k2: int|
                        0 <= k2 < state@.orders.len() implies (#[trigger] state@.orders[k2]).id
                        <= state@.config.counter as int by {
                        let k0 = if k2 < oi as int {
                            k2
                        } else {
                            k2 + 1
                        };
                        assert(state@.orders[k2] == old(state)@.orders[k0]);
                        assert(old(state)@.orders[k0].id <= old(state)@.config.counter as int);
                    }
                }
            }
        },
        None => {},
    }
    proof {
        if state@ == old(state)@ {
            lemma_counter_transfers(old(state)@, state@);
        }
    }
    Ok(effects)
}

/// Rolls back the optimistic local state of a packet whose delivery failed
/// or timed out: refunds the escrowed tokens to their sender and deletes
/// tentative records.  Refunding an already-validated escrow cannot fail
/// for lack of funds; only a missing record is an error.
#[verifier::rlimit(100)]
pub fn refund_packet_token(
    state: &mut ContractState,
    env: &EnvInfo,
    packet: IBCSwapPacketData,
) -> (r: Result<Vec<TokenEffect>, ContractError>)
    requires
        old(state)@.wf(),
        old(state)@.counter_wf(),
    ensures
        final(state)@.wf(),
        final(state)@.counter_wf(),
        r is Err ==> final(state)@ == old(state)@,
        // A cancel packet staged nothing, so its failure rolls back
        // nothing; an unspecified packet carries nothing.
        packet.payload matches PacketPayload::Unspecified ==> (r matches Ok(eff) && eff@.len()
            == 0 && final(state)@ == old(state)@),
        packet.payload matches PacketPayload::CancelPool(_) ==> (r matches Ok(eff)
            && eff@.len() == 0 && final(state)@ == old(state)@),
        packet.payload matches PacketPayload::CancelMultiDeposit(_) ==> (r matches Ok(eff)
            && eff@.len() == 0 && final(state)@ == old(state)@),
        // A failed make-pool refunds the escrowed source leg to the
        // creator and deletes the tentative pool and share-token records.
        packet.payload matches PacketPayload::MakePool(m) ==> {
            let liq = m.liquidity@.map_values(|a: crate::market::PoolAsset| a@);
            let pid = crate::handlers::pool_id_of(
                liq[0].balance.denom,
                liq[1].balance.denom,
                env.chain_id@,
                m.destination_chain_id@,
            );
            &&& (r is Ok <==> m.liquidity@.len() == 2)
            &&& (r matches Ok(eff) ==> {
                &&& eff@.len() == 1
                &&& (eff@[0] matches TokenEffect::SendCoin { recipient, coin } && recipient@
                    == m.creator@ && coin@ == liq[0].balance)
                &&& (has_pool(old(state)@.pools, pid) ==> final(state)@.pools == old(
                    state,
                )@.pools.remove(pool_idx(old(state)@.pools, pid)))
                &&& (!has_pool(old(state)@.pools, pid) ==> final(state)@.pools == old(
                    state,
                )@.pools)
                &&& (has_pool_token(old(state)@.pool_tokens, pid)
                    ==> final(state)@.pool_tokens == old(state)@.pool_tokens.remove(
                    pool_token_idx(old(state)@.pool_tokens, pid),
                ))
                &&& (!has_pool_token(old(state)@.pool_tokens, pid)
                    ==> final(state)@.pool_tokens == old(state)@.pool_tokens)
                &&& final(state)@.orders == old(state)@.orders
                &&& final(state)@.active_orders == old(state)@.active_orders
                &&& final(state)@.config == old(state)@.config
            })
        },
        // A failed take refunds the destination leg to its creator.
        packet.payload matches PacketPayload::TakePool(m) ==> {
            &&& (!has_pool(old(state)@.pools, m.pool_id@) ==> r == Err::<
                Vec<TokenEffect>,
                ContractError,
            >(ContractError::PoolNotFound))
            &&& (r is Ok <==> has_pool(old(state)@.pools, m.pool_id@) && old(state)@.pools[
                pool_idx(old(state)@.pools, m.pool_id@)].assets.len() == 2)
            &&& (r matches Ok(eff) ==> final(state)@ == old(state)@ && eff@.len() == 1 && (
            eff@[0] matches TokenEffect::SendCoin { recipient, coin } && recipient@ == m.creator@
                && coin@ == old(state)@.pools[pool_idx(
                old(state)@.pools,
                m.pool_id@,
            )].assets[1].balance))
        },
        // A failed single-sided deposit refunds the attached token.
        packet.payload matches PacketPayload::SingleAssetDeposit(m) ==> (r matches Ok(eff)
            && final(state)@ == old(state)@ && eff@.len() == 1 && (
        eff@[0] matches TokenEffect::SendCoin { recipient, coin } && recipient@ == m.sender@
            && coin@ == m.token@)),
        // A failed make-deposit refunds the maker's leg and deletes the
        // tentative pending order and its index entry; the id generator is
        // kept monotonic.
        packet.payload matches PacketPayload::MakeMultiDeposit(m) ==> {
            &&& (r is Ok <==> m.deposits@.len() == 2 && (packet.state_change matches Some(c)
                && c.multi_deposit_order_id is Some))
            &&& (r matches Ok(eff) ==> (packet.state_change matches Some(c)
                && c.multi_deposit_order_id matches Some(oid) && {
                let orders = old(state)@.orders;
                let pid = m.pool_id@;
                &&& eff@.len() == 1
                &&& (eff@[0] matches TokenEffect::SendCoin { recipient, coin } && recipient@
                    == m.deposits@[0].sender@ && coin@ == m.deposits@[0].balance@)
                &&& (has_order(orders, pid, oid as int) && orders[order_idx(
                    orders,
                    pid,
                    oid as int,
                )].status == OrderStatus::Pending ==> {
                    let o = orders[order_idx(orders, pid, oid as int)];
                    &&& final(state)@.orders == orders.remove(order_idx(orders, pid, oid as int))
                    &&& final(state)@.active_orders == old(state)@.active_orders.remove(
                        crate::state::active_idx(
                            old(state)@.active_orders,
                            o.source_maker,
                            o.pool_id,
                            o.destination_taker,
                        ),
                    )
                })
                &&& (!(has_order(orders, pid, oid as int) && orders[order_idx(
                    orders,
                    pid,
                    oid as int,
                )].status == OrderStatus::Pending) ==> final(state)@.orders == orders
                    && final(state)@.active_orders == old(state)@.active_orders)
                &&& final(state)@.pools == old(state)@.pools
                &&& final(state)@.pool_tokens == old(state)@.pool_tokens
                &&& final(state)@.config == old(state)@.config
            }))
        },
        // A failed take refunds the taker's leg.
        packet.payload matches PacketPayload::TakeMultiDeposit(m) ==> {
            &&& (!has_order(old(state)@.orders, m.pool_id@, m.order_id as int) ==> r == Err::<
                Vec<TokenEffect>,
                ContractError,
            >(ContractError::ErrOrderNotFound))
            &&& (r is Ok <==> has_order(old(state)@.orders, m.pool_id@, m.order_id as int)
                && old(state)@.orders[order_idx(
                old(state)@.orders,
                m.pool_id@,
                m.order_id as int,
            )].deposits.len() == 2)
            &&& (r matches Ok(eff) ==> final(state)@ == old(state)@ && eff@.len() == 1 && (
            eff@[0] matches TokenEffect::SendCoin { recipient, coin } && recipient@ == m.sender@
                && coin@ == old(state)@.orders[order_idx(
                old(state)@.orders,
                m.pool_id@,
                m.order_id as int,
            )].deposits[1]))
        },
        // A failed withdrawal returns the pulled share tokens.
        packet.payload matches PacketPayload::MultiWithdraw(m) ==> {
            &&& (r is Ok <==> has_pool_token(old(state)@.pool_tokens, m.pool_id@))
            &&& (r matches Ok(eff) ==> final(state)@ == old(state)@ && eff@.len() == 1 && (
            eff@[0] matches TokenEffect::SendLp { recipient, lp_token, amount } && recipient@
                == m.receiver@ && lp_token@ == old(state)@.pool_tokens[pool_token_idx(
                old(state)@.pool_tokens,
                m.pool_id@,
            )].address && amount == m.pool_token@.amount))
        },
        // A failed swap refunds what the trader paid: the input for
        // exact-in, the carried offer for exact-out.
        packet.payload matches PacketPayload::Swap(m) ==> {
            &&& (m.swap_type == SwapMsgType::LEFT ==> (r matches Ok(eff) && final(state)@
                == old(state)@ && eff@.len() == 1 && (eff@[0] matches
                TokenEffect::SendCoin { recipient, coin } && recipient@ == m.sender@ && coin@
                == m.token_in@)))
            &&& (m.swap_type == SwapMsgType::RIGHT ==> {
                &&& (r is Ok <==> (packet.state_change matches Some(c) && c.out_tokens@.len()
                    >= 1))
                &&& (r matches Ok(eff) ==> (packet.state_change matches Some(c) && final(state)@
                    == old(state)@ && eff@.len() == 1 && (eff@[0] matches
                    TokenEffect::SendCoin { recipient, coin } && recipient@ == m.sender@ && coin@
                    == (c.out_tokens@[0])@)))
            })
        },
{
    let sc: Option<StateChange> = packet.state_change;
    match packet.payload {
        PacketPayload::Unspecified => Ok(Vec::new()),
        PacketPayload::MakePool(msg) => refund_make_pool(state, env, msg),
        PacketPayload::TakePool(msg) => {
            let i: usize = match state.find_pool_index(&msg.pool_id) {
                Some(i) => i,
                None => {
                    return Err(ContractError::PoolNotFound);
                },
            };
            if state.pools[i].assets.len() != 2 {
                return Err(ContractError::InvalidAssetInput);
            }
            let mut effects: Vec<TokenEffect> = Vec::new();
            effects.push(
                TokenEffect::SendCoin {
                    recipient: msg.creator.clone(),
                    coin: state.pools[i].assets[1].balance.dup(),
                },
            );
            Ok(effects)
        },
        PacketPayload::CancelPool(_) => Ok(Vec::new()),
        PacketPayload::SingleAssetDeposit(msg) => {
            let mut effects: Vec<TokenEffect> = Vec::new();
            effects.push(
                TokenEffect::SendCoin { recipient: msg.sender.clone(), coin: msg.token.dup() },
            );
            Ok(effects)
        },
        PacketPayload::MakeMultiDeposit(msg) => {
            if msg.deposits.len() != 2 {
                return Err(ContractError::InvalidAssetInput);
            }
            let oid: u64 = match sc {
                Some(c) => match c.multi_deposit_order_id {
                    Some(o) => o,
                    None => {
                        return Err(ContractError::MalformedPacket);
                    },
                },
                None => {
                    return Err(ContractError::MalformedPacket);
                },
            };
            refund_make_multi_deposit(state, msg, oid)
        },
        PacketPayload::TakeMultiDeposit(msg) => {
            let oi: usize = match state.find_order_index(&msg.pool_id, msg.order_id) {
                Some(oi) => oi,
                None => {
                    return Err(ContractError::ErrOrderNotFound);
                },
            };
            if state.orders[oi].deposits.len() != 2 {
                return Err(ContractError::InvalidAssetInput);
            }
            let mut effects: Vec<TokenEffect> = Vec::new();
            effects.push(
                TokenEffect::SendCoin {
                    recipient: msg.sender.clone(),
                    coin: state.orders[oi].deposits[1].dup(),
                },
            );
            Ok(effects)
        },
        PacketPayload::CancelMultiDeposit(_) => Ok(Vec::new()),
        PacketPayload::MultiWithdraw(msg) => {
            let ti: usize = match state.find_pool_token_index(&msg.pool_id) {
                Some(t) => t,
                None => {
                    return Err(ContractError::LpTokenNotInitialized);
                },
            };
            let mut effects: Vec<TokenEffect> = Vec::new();
            effects.push(
                TokenEffect::SendLp {
                    recipient: msg.receiver.clone(),
                    lp_token: state.pool_tokens[ti].address.clone(),
                    amount: msg.pool_token.amount,
                },
            );
            Ok(effects)
        },
        PacketPayload::Swap(msg) => {
            match msg.swap_type {
                SwapMsgType::LEFT => {
                    let mut effects: Vec<TokenEffect> = Vec::new();
                    effects.push(
                        TokenEffect::SendCoin {
                            recipient: msg.sender.clone(),
                            coin: msg.token_in.dup(),
                        },
                    );
                    Ok(effects)
                },
                SwapMsgType::RIGHT => {
                    let out: Coin = match sc {
                        Some(c) => {
                            if c.out_tokens.len() == 0 {
                                return Err(ContractError::MalformedPacket);
                            }
                            c.out_tokens[0].dup()
                        },
                        None => {
                            return Err(ContractError::MalformedPacket);
                        },
                    };
                    let mut effects: Vec<TokenEffect> = Vec::new();
                    effects.push(
                        TokenEffect::SendCoin { recipient: msg.sender.clone(), coin: out },
                    );
                    Ok(effects)
                },
            }
        },
    }
}

/// Rolls back on a failure acknowledgement: the refund path of the packet.
#[verifier::rlimit(100)]
pub fn on_packet_failure(
    state: &mut ContractState,
    env: &EnvInfo,
    packet: IBCSwapPacketData,
) -> (r: Result<Vec<TokenEffect>, ContractError>)
    requires
        old(state)@.wf(),
        old(state)@.counter_wf(),
    ensures
        final(state)@.wf(),
        final(state)@.counter_wf(),
        r is Err ==> final(state)@ == old(state)@,
        // A cancel packet staged nothing, so its failure rolls back
        // nothing; an unspecified packet carries nothing.
        packet.payload matches PacketPayload::Unspecified ==> (r matches Ok(eff) && eff@.len()
            == 0 && final(state)@ == old(state)@),
        packet.payload matches PacketPayload::CancelPool(_) ==> (r matches Ok(eff)
            && eff@.len() == 0 && final(state)@ == old(state)@),
        packet.payload matches PacketPayload::CancelMultiDeposit(_) ==> (r matches Ok(eff)
            && eff@.len() == 0 && final(state)@ == old(state)@),
        // A failed make-pool refunds the escrowed source leg to the
        // creator and deletes the tentative pool and share-token records.
        packet.payload matches PacketPayload::MakePool(m) ==> {
            let liq = m.liquidity@.map_values(|a: crate::market::PoolAsset| a@);
            let pid = crate::handlers::pool_id_of(
                liq[0].balance.denom,
                liq[1].balance.denom,
                env.chain_id@,
                m.destination_chain_id@,
            );
            &&& (r is Ok <==> m.liquidity@.len() == 2)
            &&& (r matches Ok(eff) ==> {
                &&& eff@.len() == 1
                &&& (eff@[0] matches TokenEffect::SendCoin { recipient, coin } && recipient@
                    == m.creator@ && coin@ == liq[0].balance)
                &&& (has_pool(old(state)@.pools, pid) ==> final(state)@.pools == old(
                    state,
                )@.pools.remove(pool_idx(old(state)@.pools, pid)))
                &&& (!has_pool(old(state)@.pools, pid) ==> final(state)@.pools == old(
                    state,
                )@.pools)
                &&& (has_pool_token(old(state)@.pool_tokens, pid)
                    ==> final(state)@.pool_tokens == old(state)@.pool_tokens.remove(
                    pool_token_idx(old(state)@.pool_tokens, pid),
                ))
                &&& (!has_pool_token(old(state)@.pool_tokens, pid)
                    ==> final(state)@.pool_tokens == old(state)@.pool_tokens)
                &&& final(state)@.orders == old(state)@.orders
                &&& final(state)@.active_orders == old(state)@.active_orders
                &&& final(state)@.config == old(state)@.config
            })
        },
        // A failed take refunds the destination leg to its creator.
        packet.payload matches PacketPayload::TakePool(m) ==> {
            &&& (!has_pool(old(state)@.pools, m.pool_id@) ==> r == Err::<
                Vec<TokenEffect>,
                ContractError,
            >(ContractError::PoolNotFound))
            &&& (r is Ok <==> has_pool(old(state)@.pools, m.pool_id@) && old(state)@.pools[
                pool_idx(old(state)@.pools, m.pool_id@)].assets.len() == 2)
            &&& (r matches Ok(eff) ==> final(state)@ == old(state)@ && eff@.len() == 1 && (
            eff@[0] matches TokenEffect::SendCoin { recipient, coin } && recipient@ == m.creator@
                && coin@ == old(state)@.pools[pool_idx(
                old(state)@.pools,
                m.pool_id@,
            )].assets[1].balance))
        },
        // A failed single-sided deposit refunds the attached token.
        packet.payload matches PacketPayload::SingleAssetDeposit(m) ==> (r matches Ok(eff)
            && final(state)@ == old(state)@ && eff@.len() == 1 && (
        eff@[0] matches TokenEffect::SendCoin { recipient, coin } && recipient@ == m.sender@
            && coin@ == m.token@)),
        // A failed make-deposit refunds the maker's leg and deletes the
        // tentative pending order and its index entry; the id generator is
        // kept monotonic.
        packet.payload matches PacketPayload::MakeMultiDeposit(m) ==> {
            &&& (r is Ok <==> m.deposits@.len() == 2 && (packet.state_change matches Some(c)
                && c.multi_deposit_order_id is Some))
            &&& (r matches Ok(eff) ==> (packet.state_change matches Some(c)
                && c.multi_deposit_order_id matches Some(oid) && {
                let orders = old(state)@.orders;
                let pid = m.pool_id@;
                &&& eff@.len() == 1
                &&& (eff@[0] matches TokenEffect::SendCoin { recipient, coin } && recipient@
                    == m.deposits@[0].sender@ && coin@ == m.deposits@[0].balance@)
                &&& (has_order(orders, pid, oid as int) && orders[order_idx(
                    orders,
                    pid,
                    oid as int,
                )].status == OrderStatus::Pending ==> {
                    let o = orders[order_idx(orders, pid, oid as int)];
                    &&& final(state)@.orders == orders.remove(order_idx(orders, pid, oid as int))
                    &&& final(state)@.active_orders == old(state)@.active_orders.remove(
                        crate::state::active_idx(
                            old(state)@.active_orders,
                            o.source_maker,
                            o.pool_id,
                            o.destination_taker,
                        ),
                    )
                })
                &&& (!(has_order(orders, pid, oid as int) && orders[order_idx(
                    orders,
                    pid,
                    oid as int,
                )].status == OrderStatus::Pending) ==> final(state)@.orders == orders
                    && final(state)@.active_orders == old(state)@.active_orders)
                &&& final(state)@.pools == old(state)@.pools
                &&& final(state)@.pool_tokens == old(state)@.pool_tokens
                &&& final(state)@.config == old(state)@.config
            }))
        },
        // A failed take refunds the taker's leg.
        packet.payload matches PacketPayload::TakeMultiDeposit(m) ==> {
            &&& (!has_order(old(state)@.orders, m.pool_id@, m.order_id as int) ==> r == Err::<
                Vec<TokenEffect>,
                ContractError,
            >(ContractError::ErrOrderNotFound))
            &&& (r is Ok <==> has_order(old(state)@.orders, m.pool_id@, m.order_id as int)
                && old(state)@.orders[order_idx(
                old(state)@.orders,
                m.pool_id@,
                m.order_id as int,
            )].deposits.len() == 2)
            &&& (r matches Ok(eff) ==> final(state)@ == old(state)@ && eff@.len() == 1 && (
            eff@[0] matches TokenEffect::SendCoin { recipient, coin } && recipient@ == m.sender@
                && coin@ == old(state)@.orders[order_idx(
                old(state)@.orders,
                m.pool_id@,
                m.order_id as int,
            )].deposits[1]))
        },
        // A failed withdrawal returns the pulled share tokens.
        packet.payload matches PacketPayload::MultiWithdraw(m) ==> {
            &&& (r is Ok <==> has_pool_token(old(state)@.pool_tokens, m.pool_id@))
            &&& (r matches Ok(eff) ==> final(state)@ == old(state)@ && eff@.len() == 1 && (
            eff@[0] matches TokenEffect::SendLp { recipient, lp_token, amount } && recipient@
                == m.receiver@ && lp_token@ == old(state)@.pool_tokens[pool_token_idx(
                old(state)@.pool_tokens,
                m.pool_id@,
            )].address && amount == m.pool_token@.amount))
        },
        // A failed swap refunds what the trader paid: the input for
        // exact-in, the carried offer for exact-out.
        packet.payload matches PacketPayload::Swap(m) ==> {
            &&& (m.swap_type == SwapMsgType::LEFT ==> (r matches Ok(eff) && final(state)@
                == old(state)@ && eff@.len() == 1 && (eff@[0] matches
                TokenEffect::SendCoin { recipient, coin } && recipient@ == m.sender@ && coin@
                == m.token_in@)))
            &&& (m.swap_type == SwapMsgType::RIGHT ==> {
                &&& (r is Ok <==> (packet.state_change matches Some(c) && c.out_tokens@.len()
                    >= 1))
                &&& (r matches Ok(eff) ==> (packet.state_change matches Some(c) && final(state)@
                    == old(state)@ && eff@.len() == 1 && (eff@[0] matches
                    TokenEffect::SendCoin { recipient, coin } && recipient@ == m.sender@ && coin@
                    == (c.out_tokens@[0])@)))
            })
        },{
    refund_packet_token(state, env, packet)
}

} // verus!
