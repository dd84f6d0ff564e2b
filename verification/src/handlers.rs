//! Initiating-side handlers: each validates a request against local state,
//! applies the optimistic local state change, and hands back the protocol
//! packet for the relay boundary together with the ledger effects.
//!
//! Every handler is atomic: on any error the state is exactly what it was.

use vstd::prelude::*;

verus! {

use crate::error::ContractError;
use crate::market::{
    Coin, GCoin, PoolAsset, InterchainLiquidityPool, GPool, PoolStatus, InterchainMarketMaker,
};
use crate::state::{
    ContractState, GState, has_pool, has_pool_token, pool_idx, pool_token_idx, has_order,
    order_idx, has_active, lemma_pool_idx_is, lemma_pool_token_idx_is, lemma_order_idx_is,
};

use crate::types::{
    EnvInfo, MsgInfo, MsgMakePoolRequest, MsgTakePoolRequest, MsgCancelPoolRequest,
    MsgSingleAssetDepositRequest, MsgMakeMultiAssetDepositRequest,
    MsgTakeMultiAssetDepositRequest, MsgCancelMultiAssetDepositRequest,
    MsgMultiAssetWithdrawRequest, MsgSwapRequest, SwapMsgType, MultiAssetDepositOrder,
    OrderStatus, Config, ExecuteOutcome, IBCSwapPacketData, PacketPayload, StateChange,
    TokenEffect, funds_cover, find_exact_funds,
};
use crate::market::{
    has_denom, denom_idx, multi_minted, multi_ok, multi_fits, wd_ratio, wd_out, wd_all_within,
    swap_out_amount, offer_in_amount, swap_ok, offer_ok, PoolSide,
};
use crate::math::{single_minted, single_fits};

/// Lexicographic order on character sequences.
pub open spec fn chars_le(x: Seq<char>, y: Seq<char>) -> bool
    decreases x.len(),
{
    if x.len() == 0 {
        true
    } else if y.len() == 0 {
        false
    } else if x[0] != y[0] {
        (x[0] as u32) < (y[0] as u32)
    } else {
        chars_le(x.drop_first(), y.drop_first())
    }
}

/// Equal prefixes do not decide the lexicographic order.
proof fn lemma_chars_le_skip(x: Seq<char>, y: Seq<char>, i: int)
    requires
        0 <= i <= x.len(),
        i <= y.len(),
        forall|k: int| 0 <= k < i ==> x[k] == y[k],
    ensures
        chars_le(x, y) == chars_le(x.skip(i), y.skip(i)),
    decreases i,
{
    if i == 0 {
        assert(x.skip(0) =~= x);
        assert(y.skip(0) =~= y);
    } else {
        assert(x.len() > 0 && y.len() > 0 && x[0] == y[0]);
        lemma_chars_le_skip(x.drop_first(), y.drop_first(), i - 1);
        assert(x.drop_first().skip(i - 1) =~= x.skip(i));
        assert(y.drop_first().skip(i - 1) =~= y.skip(i));
    }
}

/// Lexicographic comparison of two strings, character by character.
pub fn string_le(a: &String, b: &String) -> (r: bool)
    ensures
        r == chars_le(a@, b@),
{
    let an: usize = a.as_str().unicode_len();
    let bn: usize = b.as_str().unicode_len();
    let mut i: usize = 0;
    while i < an && i < bn
        invariant
            an == a@.len(),
            bn == b@.len(),
            i <= an,
            i <= bn,
            forall|k: int| 0 <= k < i ==> a@[k] == b@[k],
        decreases an - i,
    {
        let ca: char = a.as_str().get_char(i);
        let cb: char = b.as_str().get_char(i);
        if ca != cb {
            proof {
                lemma_chars_le_skip(a@, b@, i as int);
                assert(a@.skip(i as int)[0] == a@[i as int]);
                assert(b@.skip(i as int)[0] == b@[i as int]);
            }
            return (ca as u32) < (cb as u32);
        }
        i = i + 1;
    }
    proof {
        lemma_chars_le_skip(a@, b@, i as int);
        if i >= an {
            assert(a@.skip(i as int).len() == 0);
        } else {
            assert(b@.skip(i as int).len() == 0);
            assert(a@.skip(i as int).len() > 0);
        }
    }
    an <= bn
}

/// The deterministic pool identifier: the token denominations in
/// lexicographic order, then the two chain identifiers, all joined.
pub open spec fn pool_id_of(
    d0: Seq<char>,
    d1: Seq<char>,
    chain_a: Seq<char>,
    chain_b: Seq<char>,
) -> Seq<char> {
    let lo = if chars_le(d0, d1) {
        d0
    } else {
        d1
    };
    let hi = if chars_le(d0, d1) {
        d1
    } else {
        d0
    };
    "pool"@ + "-"@ + lo + "-"@ + hi + "-"@ + chain_a + "-"@ + chain_b
}

/// Derives the identifier of the pool over two denominations and the two
/// chains it spans.
pub fn derive_pool_id(d0: &String, d1: &String, chain_a: &String, chain_b: &String) -> (r: String)
    ensures
        r@ == pool_id_of(d0@, d1@, chain_a@, chain_b@),
{
    let mut id = String::new();
    id.append("pool");
    id.append("-");
    if string_le(d0, d1) {
        id.append(d0.as_str());
        id.append("-");
        id.append(d1.as_str());
    } else {
        id.append(d1.as_str());
        id.append("-");
        id.append(d0.as_str());
    }
    id.append("-");
    id.append(chain_a.as_str());
    id.append("-");
    id.append(chain_b.as_str());
    id
}

/// A structurally sound pool proposal: exactly two assets with distinct
/// denominations, positive amounts, weights splitting one hundred percent,
/// and a fee within the basis-point range.
pub open spec fn make_pool_valid(liquidity: Seq<crate::market::GAsset>, swap_fee: int) -> bool {
    &&& liquidity.len() == 2
    &&& liquidity[0].balance.denom != liquidity[1].balance.denom
    &&& liquidity[0].balance.amount > 0
    &&& liquidity[1].balance.amount > 0
    &&& liquidity[0].weight + liquidity[1].weight == 100
    &&& 0 <= liquidity[0].weight <= 100
    &&& 0 <= liquidity[1].weight <= 100
    &&& 0 <= swap_fee <= 10000
}


/// Structural validation of a pool proposal, shared by the initiating and
/// the receiving side.
pub fn validate_make_pool(msg: &MsgMakePoolRequest) -> (r: Result<(), ContractError>)
    ensures
        r is Ok <==> msg.liquidity@.len() == 2 && make_pool_valid(
            msg.liquidity@.map_values(|a: PoolAsset| a@),
            msg.swap_fee as int,
        ),
        ({
            let liq = msg.liquidity@.map_values(|a: PoolAsset| a@);
            &&& (liq.len() != 2 ==> r == Err::<(), ContractError>(ContractError::InvalidAssetInput))
            &&& (liq.len() == 2 ==> {
                &&& (liq[0].balance.denom == liq[1].balance.denom ==> r == Err::<
                    (),
                    ContractError,
                >(ContractError::InvalidDenomPair))
                &&& (liq[0].balance.denom != liq[1].balance.denom && (liq[0].balance.amount == 0
                    || liq[1].balance.amount == 0) ==> r == Err::<(), ContractError>(
                    ContractError::InvalidAmount,
                ))
                &&& (liq[0].balance.denom != liq[1].balance.denom && liq[0].balance.amount > 0
                    && liq[1].balance.amount > 0 && !(liq[0].weight + liq[1].weight == 100
                    && liq[0].weight <= 100 && liq[1].weight <= 100) ==> r == Err::<
                    (),
                    ContractError,
                >(ContractError::InvalidWeightPair))
                &&& (liq[0].balance.denom != liq[1].balance.denom && liq[0].balance.amount > 0
                    && liq[1].balance.amount > 0 && liq[0].weight + liq[1].weight == 100
                    && liq[0].weight <= 100 && liq[1].weight <= 100 && msg.swap_fee > 10000 ==> r
                    == Err::<(), ContractError>(ContractError::InvalidFeeRate))
            })
        }),
{
    if msg.liquidity.len() != 2 {
        return Err(ContractError::InvalidAssetInput);
    }
    if msg.liquidity[0].balance.denom == msg.liquidity[1].balance.denom {
        return Err(ContractError::InvalidDenomPair);
    }
    if msg.liquidity[0].balance.amount == 0 || msg.liquidity[1].balance.amount == 0 {
        return Err(ContractError::InvalidAmount);
    }
    if msg.liquidity[0].weight > 100 || msg.liquidity[1].weight > 100 || msg.liquidity[0].weight
        + msg.liquidity[1].weight != 100 {
        return Err(ContractError::InvalidWeightPair);
    }
    if msg.swap_fee > 10000 {
        return Err(ContractError::InvalidFeeRate);
    }
    Ok(())
}

/// Opens a new pool: validates the proposal, escrows the source-side
/// liquidity, stores the pool in `Initialized` status with zero supply, and
/// emits the make-pool packet together with the share-token instantiation
/// effect.
pub fn make_pool(
    state: &mut ContractState,
    env: &EnvInfo,
    info: &MsgInfo,
    msg: MsgMakePoolRequest,
) -> (r: Result<ExecuteOutcome, ContractError>)
    requires
        old(state)@.wf(),
    ensures
        final(state)@.wf(),
        r is Err ==> final(state)@ == old(state)@,
        ({
            let liq = msg.liquidity@.map_values(|a: PoolAsset| a@);
            let pid = pool_id_of(
                msg.liquidity@.map_values(|a: PoolAsset| a@)[0].balance.denom,
                msg.liquidity@.map_values(|a: PoolAsset| a@)[1].balance.denom,
                env.chain_id@,
                msg.destination_chain_id@,
            );
            let funds = info.funds@.map_values(|c: Coin| c@);
            &&& (r is Ok <==> msg.liquidity@.len() == 2 && make_pool_valid(
                liq,
                msg.swap_fee as int,
            ) && !has_pool(old(state)@.pools, pid) && (funds_cover(funds, liq[0].balance)
                || funds_cover(funds, liq[1].balance)) && !has_pool_token(
                old(state)@.pool_tokens,
                pid,
            ))
            &&& (msg.liquidity@.len() == 2 && make_pool_valid(liq, msg.swap_fee as int) ==> {
                &&& (has_pool(old(state)@.pools, pid) ==> r == Err::<
                    ExecuteOutcome,
                    ContractError,
                >(ContractError::PoolAlreadyExists))
                &&& (!has_pool(old(state)@.pools, pid) && !(funds_cover(funds, liq[0].balance)
                    || funds_cover(funds, liq[1].balance)) ==> r == Err::<
                    ExecuteOutcome,
                    ContractError,
                >(ContractError::FundsMismatch))
                &&& (!has_pool(old(state)@.pools, pid) && (funds_cover(funds, liq[0].balance)
                    || funds_cover(funds, liq[1].balance)) && has_pool_token(
                    old(state)@.pool_tokens,
                    pid,
                ) ==> r == Err::<ExecuteOutcome, ContractError>(
                    ContractError::LpTokenAlreadyExists,
                ))
            })
            &&& (r matches Ok(o) ==> {
                let gp = final(state)@.pools.last();
                &&& final(state)@ == (GState {
                    pools: old(state)@.pools.push(gp),
                    temp: Some(pid),
                    ..old(state)@
                })
                &&& gp.id == pid
                &&& gp.assets == liq
                &&& gp.status == PoolStatus::Initialized
                &&& gp.supply.amount == 0
                &&& gp.supply.denom == pid
                &&& gp.swap_fee == msg.swap_fee as int
                &&& gp.source_creator == msg.creator@
                &&& gp.destination_creator == msg.counter_party_creator@
                &&& gp.source_chain_id == env.chain_id@
                &&& gp.destination_chain_id == msg.destination_chain_id@
                &&& gp.counter_party_port == msg.source_port@
                &&& gp.counter_party_channel == msg.source_channel@
                &&& o.channel@ == msg.source_channel@
                &&& o.packet.payload == PacketPayload::MakePool(msg)
                &&& (o.packet.state_change matches Some(sc) && (sc.pool_id matches Some(p)
                    && p@ == pid) && (sc.source_chain_id matches Some(c) && c@ == env.chain_id@))
                &&& o.effects@.len() == 1
                &&& (o.effects@[0] matches TokenEffect::InstantiateLpToken { pool_id: p } && p@
                    == pid)
            })
        }),
{
    match validate_make_pool(&msg) {
        Ok(_) => {},
        Err(e) => {
            return Err(e);
        },
    }
    let pool_id = derive_pool_id(
        &msg.liquidity[0].balance.denom,
        &msg.liquidity[1].balance.denom,
        &env.chain_id,
        &msg.destination_chain_id,
    );
    match state.find_pool_index(&pool_id) {
        Some(_) => {
            return Err(ContractError::PoolAlreadyExists);
        },
        None => {},
    }
    let funds_ok = find_exact_funds(&info.funds, &msg.liquidity[0].balance)
        || find_exact_funds(&info.funds, &msg.liquidity[1].balance);
    if !funds_ok {
        return Err(ContractError::FundsMismatch);
    }
    match state.find_pool_token_index(&pool_id) {
        Some(_) => {
            return Err(ContractError::LpTokenAlreadyExists);
        },
        None => {},
    }
    let mut assets: Vec<PoolAsset> = Vec::new();
    assets.push(msg.liquidity[0].dup());
    assets.push(msg.liquidity[1].dup());
    let pool = InterchainLiquidityPool {
        assets,
        counter_party_channel: msg.source_channel.clone(),
        counter_party_port: msg.source_port.clone(),
        destination_chain_id: msg.destination_chain_id.clone(),
        destination_creator: msg.counter_party_creator.clone(),
        id: pool_id.clone(),
        source_chain_id: env.chain_id.clone(),
        source_creator: msg.creator.clone(),
        status: PoolStatus::Initialized,
        supply: Coin { denom: pool_id.clone(), amount: 0 },
        swap_fee: msg.swap_fee,
        pool_price: 0,
    };
    proof {
        let liq = msg.liquidity@.map_values(|a: PoolAsset| a@);
        assert(pool@.assets =~= liq);
        assert(crate::market::sum_weights(pool@.assets) == 100) by {
            let s2 = pool@.assets;
            let s1 = s2.drop_last();
            let s0 = s1.drop_last();
            assert(s0.len() == 0);
            assert(crate::market::sum_weights(s0) == 0);
            assert(s1.last() == s2[0] && s1.len() == 1);
            assert(crate::market::sum_weights(s1) == s2[0].weight);
            assert(crate::market::sum_weights(s2) == s2[0].weight + s2[1].weight);
        }
        assert(pool@.wf());
    }
    state.temp = Some(pool_id.clone());
    state.insert_pool(pool);
    let state_change = StateChange {
        in_tokens: Vec::new(),
        out_tokens: Vec::new(),
        pool_tokens: Vec::new(),
        pool_id: Some(pool_id.clone()),
        multi_deposit_order_id: None,
        source_chain_id: Some(env.chain_id.clone()),
    };
    let channel = msg.source_channel.clone();
    let mut effects: Vec<TokenEffect> = Vec::new();
    effects.push(TokenEffect::InstantiateLpToken { pool_id });
    Ok(
        ExecuteOutcome {
            channel,
            packet: IBCSwapPacketData {
                payload: PacketPayload::MakePool(msg),
                state_change: Some(state_change),
            },
            effects,
        },
    )
}

/// The position of the first asset sitting on the source side.
pub open spec fn first_source_idx_is(assets: Seq<crate::market::GAsset>, s: int) -> bool {
    &&& 0 <= s < assets.len()
    &&& assets[s].side == crate::market::PoolSide::SOURCE
    &&& forall|j: int| 0 <= j < s ==> (#[trigger] assets[j]).side != crate::market::PoolSide::SOURCE
}

/// Accepts a proposed pool on the counterparty creator's behalf: the pool
/// must still be `Initialized`, the caller must be its destination
/// creator, and the attached funds must match the source-side asset
/// exactly.  The local state does not change; activation happens when the
/// acknowledgement returns.
pub fn take_pool(
    state: &mut ContractState,
    env: &EnvInfo,
    info: &MsgInfo,
    msg: MsgTakePoolRequest,
) -> (r: Result<ExecuteOutcome, ContractError>)
    requires
        old(state)@.wf(),
    ensures
        final(state)@.wf(),
        ({
            let pid = msg.pool_id@;
            let pools = old(state)@.pools;
            let funds = info.funds@.map_values(|c: Coin| c@);
            &&& (!has_pool(pools, pid) ==> r == Err::<ExecuteOutcome, ContractError>(
                ContractError::PoolNotFound,
            ))
            &&& (has_pool(pools, pid) ==> {
                let p = pools[pool_idx(pools, pid)];
                &&& (r == Err::<ExecuteOutcome, ContractError>(ContractError::InvalidStatus)
                    <==> p.status != PoolStatus::Initialized)
                &&& (p.status == PoolStatus::Initialized ==> (r == Err::<
                    ExecuteOutcome,
                    ContractError,
                >(ContractError::InvalidSender) <==> p.destination_creator != info.sender@))
                &&& (p.status == PoolStatus::Initialized && p.destination_creator == info.sender@
                    ==> {
                    &&& ((forall|s: int|
                        0 <= s < p.assets.len() ==> (#[trigger] p.assets[s]).side
                            != crate::market::PoolSide::SOURCE) <==> r == Err::<
                        ExecuteOutcome,
                        ContractError,
                    >(ContractError::AssetSideNotFound))
                    &&& (r is Ok <==> exists|s: int|
                        #[trigger] first_source_idx_is(p.assets, s) && funds_cover(
                            funds,
                            p.assets[s].balance,
                        ))
                    &&& ((exists|s: int|
                        #[trigger] first_source_idx_is(p.assets, s) && !funds_cover(
                            funds,
                            p.assets[s].balance,
                        )) ==> r == Err::<ExecuteOutcome, ContractError>(
                        ContractError::FundsMismatch,
                    ))
                })
                &&& (r matches Ok(o) ==> {
                    &&& o.channel@ == p.counter_party_channel
                    &&& o.packet.payload == PacketPayload::TakePool(msg)
                    &&& o.packet.state_change is None
                    // The taker chain instantiates its own share-token
                    // contract if none is recorded yet.
                    &&& (has_pool_token(old(state)@.pool_tokens, pid) ==> o.effects@.len() == 0)
                    &&& (!has_pool_token(old(state)@.pool_tokens, pid) ==> o.effects@.len() == 1
                        && (o.effects@[0] matches TokenEffect::InstantiateLpToken { pool_id: tp }
                        && tp@ == pid))
                })
            })
        }),
        r is Err ==> final(state)@ == old(state)@,
        r is Ok ==> final(state)@ == (GState { temp: Some(msg.pool_id@), ..old(state)@ }),
{
    let i: usize = match state.find_pool_index(&msg.pool_id) {
        Some(i) => i,
        None => {
            return Err(ContractError::PoolNotFound);
        },
    };
    proof {
        crate::state::lemma_pool_idx_is(state@.pools, msg.pool_id@, i as int);
    }
    if !matches!(state.pools[i].status, PoolStatus::Initialized) {
        return Err(ContractError::InvalidStatus);
    }
    if !(state.pools[i].destination_creator == info.sender) {
        return Err(ContractError::InvalidSender);
    }
    // The take step escrows the source-side asset: the attached funds
    // must match it exactly.
    let ghost gassets = state@.pools[i as int].assets;
    let src_asset = match state.pools[i].find_asset_by_side(crate::market::PoolSide::SOURCE) {
        Ok(a) => a,
        Err(e) => {
            proof {
                assert(!(exists|s: int|
                    #[trigger] first_source_idx_is(gassets, s) && funds_cover(
                        info.funds@.map_values(|c: Coin| c@),
                        gassets[s].balance,
                    ))) by {
                    if exists|s: int|
                        #[trigger] first_source_idx_is(gassets, s) && funds_cover(
                            info.funds@.map_values(|c: Coin| c@),
                            gassets[s].balance,
                        ) {
                        let s = choose|s: int|
                            #[trigger] first_source_idx_is(gassets, s) && funds_cover(
                                info.funds@.map_values(|c: Coin| c@),
                                gassets[s].balance,
                            );
                        assert((gassets[s]).side != crate::market::PoolSide::SOURCE);
                    }
                }
            }
            return Err(e);
        },
    };
    let ghost si = choose|s: int|
        0 <= s < gassets.len() && (#[trigger] gassets[s]).side == crate::market::PoolSide::SOURCE
            && src_asset@ == gassets[s] && (forall|j: int|
            0 <= j < s ==> (#[trigger] gassets[j]).side != crate::market::PoolSide::SOURCE);
    proof {
        assert(first_source_idx_is(gassets, si));
    }
    if !find_exact_funds(&info.funds, &src_asset.balance) {
        proof {
            lemma_first_source_unique(gassets, si);
            assert(first_source_idx_is(gassets, si) && !funds_cover(
                info.funds@.map_values(|c: Coin| c@),
                gassets[si].balance,
            ));
            assert(!(exists|s: int|
                #[trigger] first_source_idx_is(gassets, s) && funds_cover(
                    info.funds@.map_values(|c: Coin| c@),
                    gassets[s].balance,
                ))) by {
                if exists|s: int|
                    #[trigger] first_source_idx_is(gassets, s) && funds_cover(
                        info.funds@.map_values(|c: Coin| c@),
                        gassets[s].balance,
                    ) {
                    let s = choose|s: int|
                        #[trigger] first_source_idx_is(gassets, s) && funds_cover(
                            info.funds@.map_values(|c: Coin| c@),
                            gassets[s].balance,
                        );
                    assert(first_source_idx_is(gassets, s));
                    assert(s == si);
                }
            }
        }
        return Err(ContractError::FundsMismatch);
    }
    proof {
        assert(first_source_idx_is(gassets, si) && funds_cover(
            info.funds@.map_values(|c: Coin| c@),
            gassets[si].balance,
        ));
    }
    let channel = state.pools[i].counter_party_channel.clone();
    let mut effects: Vec<TokenEffect> = Vec::new();
    match state.find_pool_token_index(&msg.pool_id) {
        Some(_) => {},
        None => {
            effects.push(TokenEffect::InstantiateLpToken { pool_id: msg.pool_id.clone() });
        },
    }
    state.temp = Some(msg.pool_id.clone());
    Ok(
        ExecuteOutcome {
            channel,
            packet: IBCSwapPacketData {
                payload: PacketPayload::TakePool(msg),
                state_change: None,
            },
            effects,
        },
    )
}

/// Two positions that are both the first source-side asset coincide.
pub proof fn lemma_first_source_unique(assets: Seq<crate::market::GAsset>, s0: int)
    requires
        first_source_idx_is(assets, s0),
    ensures
        forall|s: int| #[trigger] first_source_idx_is(assets, s) ==> s == s0,
{
    assert forall|s: int| #[trigger] first_source_idx_is(assets, s) implies s == s0 by {
        if s < s0 {
            assert((assets[s]).side != crate::market::PoolSide::SOURCE);
        }
        if s0 < s {
            assert((assets[s0]).side != crate::market::PoolSide::SOURCE);
        }
    }
}

/// Withdraws a proposed pool before activation: only the source creator
/// may cancel, and only while the pool is still `Initialized`.  The local
/// record is kept until the cancellation acknowledgement returns.
pub fn cancel_pool(
    state: &mut ContractState,
    env: &EnvInfo,
    info: &MsgInfo,
    msg: MsgCancelPoolRequest,
) -> (r: Result<ExecuteOutcome, ContractError>)
    requires
        old(state)@.wf(),
    ensures
        final(state)@.wf(),
        final(state)@ == old(state)@,
        ({
            let pid = msg.pool_id@;
            let pools = old(state)@.pools;
            &&& (!has_pool(pools, pid) ==> r == Err::<ExecuteOutcome, ContractError>(
                ContractError::PoolNotFound,
            ))
            &&& (has_pool(pools, pid) ==> {
                let p = pools[pool_idx(pools, pid)];
                &&& (r == Err::<ExecuteOutcome, ContractError>(ContractError::InvalidStatus)
                    <==> p.status != PoolStatus::Initialized)
                &&& (p.status == PoolStatus::Initialized ==> (r == Err::<
                    ExecuteOutcome,
                    ContractError,
                >(ContractError::InvalidSender) <==> p.source_creator != info.sender@))
                &&& (r is Ok <==> p.status == PoolStatus::Initialized && p.source_creator
                    == info.sender@)
                &&& (r matches Ok(o) ==> {
                    &&& o.channel@ == p.counter_party_channel
                    &&& o.packet.payload == PacketPayload::CancelPool(msg)
                    &&& o.packet.state_change is None
                    &&& o.effects@.len() == 0
                })
            })
        }),
{
    let i: usize = match state.find_pool_index(&msg.pool_id) {
        Some(i) => i,
        None => {
            return Err(ContractError::PoolNotFound);
        },
    };
    proof {
        crate::state::lemma_pool_idx_is(state@.pools, msg.pool_id@, i as int);
    }
    if !matches!(state.pools[i].status, PoolStatus::Initialized) {
        return Err(ContractError::InvalidStatus);
    }
    if !(state.pools[i].source_creator == info.sender) {
        return Err(ContractError::InvalidSender);
    }
    let channel = state.pools[i].counter_party_channel.clone();
    Ok(
        ExecuteOutcome {
            channel,
            packet: IBCSwapPacketData {
                payload: PacketPayload::CancelPool(msg),
                state_change: None,
            },
            effects: Vec::new(),
        },
    )
}

/// Prices a single-sided deposit against an active pool and emits the
/// deposit packet carrying the precomputed share mint.  The local state is
/// untouched: the pool is updated when the acknowledgement returns.
pub fn single_asset_deposit(
    state: &mut ContractState,
    env: &EnvInfo,
    info: &MsgInfo,
    msg: MsgSingleAssetDepositRequest,
) -> (r: Result<ExecuteOutcome, ContractError>)
    requires
        old(state)@.wf(),
    ensures
        final(state)@ == old(state)@,
        ({
            let pid = msg.pool_id@;
            let pools = old(state)@.pools;
            let funds = info.funds@.map_values(|c: Coin| c@);
            &&& (msg.token@.amount == 0 ==> r == Err::<ExecuteOutcome, ContractError>(
                ContractError::InvalidAmount,
            ))
            &&& (msg.token@.amount > 0 && !funds_cover(funds, msg.token@) ==> r == Err::<
                ExecuteOutcome,
                ContractError,
            >(ContractError::FundsMismatch))
            &&& (msg.token@.amount > 0 && funds_cover(funds, msg.token@) && !has_pool(pools, pid)
                ==> r == Err::<ExecuteOutcome, ContractError>(ContractError::PoolNotFound))
            &&& (r is Ok <==> msg.token@.amount > 0 && funds_cover(funds, msg.token@)
                && has_pool(pools, pid) && {
                let p = pools[pool_idx(pools, pid)];
                let a = p.assets[denom_idx(p.assets, msg.token@.denom)];
                &&& p.supply.amount > 0
                &&& p.status == PoolStatus::Active
                &&& has_denom(p.assets, msg.token@.denom)
                &&& a.balance.amount > 0
                &&& single_fits(
                    msg.token@.amount,
                    a.balance.amount,
                    a.weight as nat,
                    p.swap_fee,
                    p.supply.amount,
                )
            })
            &&& (msg.token@.amount > 0 && funds_cover(funds, msg.token@) && has_pool(pools, pid)
                ==> {
                let p = pools[pool_idx(pools, pid)];
                &&& (p.supply.amount == 0 ==> r == Err::<ExecuteOutcome, ContractError>(
                    ContractError::MathUndefined,
                ))
                &&& (p.supply.amount > 0 && p.status != PoolStatus::Active ==> r == Err::<
                    ExecuteOutcome,
                    ContractError,
                >(ContractError::NotReadyForSwap))
                &&& (p.supply.amount > 0 && p.status == PoolStatus::Active && !has_denom(
                    p.assets,
                    msg.token@.denom,
                ) ==> r == Err::<ExecuteOutcome, ContractError>(ContractError::AssetNotFound))
                &&& (r matches Ok(o) ==> {
                    let a = p.assets[denom_idx(p.assets, msg.token@.denom)];
                    &&& o.channel@ == p.counter_party_channel
                    &&& o.packet.payload == PacketPayload::SingleAssetDeposit(msg)
                    &&& (o.packet.state_change matches Some(sc) && sc.pool_tokens@.len() == 1 && (
                    sc.pool_tokens@[0])@.denom == p.supply.denom && (sc.pool_tokens@[0])@.amount
                        == single_minted(
                        msg.token@.amount,
                        a.balance.amount,
                        a.weight as nat,
                        p.swap_fee,
                        p.supply.amount,
                    ))
                    &&& o.effects@.len() == 0
                })
            })
        }),
{
    if msg.token.amount == 0 {
        return Err(ContractError::InvalidAmount);
    }
    if !find_exact_funds(&info.funds, &msg.token) {
        return Err(ContractError::FundsMismatch);
    }
    let i: usize = match state.find_pool_index(&msg.pool_id) {
        Some(i) => i,
        None => {
            return Err(ContractError::PoolNotFound);
        },
    };
    proof {
        lemma_pool_idx_is(state@.pools, msg.pool_id@, i as int);
        assert(state@.pools[i as int].wf());
    }
    if state.pools[i].supply.amount == 0 {
        return Err(ContractError::MathUndefined);
    }
    if !matches!(state.pools[i].status, PoolStatus::Active) {
        return Err(ContractError::NotReadyForSwap);
    }
    let fee_rate: u32 = state.pools[i].swap_fee;
    let amm = InterchainMarketMaker::new(&state.pools[i], fee_rate);
    let pool_token: Coin = match amm.deposit_single_asset(&msg.token) {
        Ok(c) => c,
        Err(e) => {
            return Err(e);
        },
    };
    let channel = state.pools[i].counter_party_channel.clone();
    let mut pool_tokens: Vec<Coin> = Vec::new();
    pool_tokens.push(pool_token);
    let state_change = StateChange {
        in_tokens: Vec::new(),
        out_tokens: Vec::new(),
        pool_tokens,
        pool_id: None,
        multi_deposit_order_id: None,
        source_chain_id: None,
    };
    Ok(
        ExecuteOutcome {
            channel,
            packet: IBCSwapPacketData {
                payload: PacketPayload::SingleAssetDeposit(msg),
                state_change: Some(state_change),
            },
            effects: Vec::new(),
        },
    )
}

/// Opens a two-party deposit order: prices the join against the active
/// pool, escrows the maker's coin, stores the order as pending together
/// with its active-order index entry, and emits the make packet carrying
/// the order id and the precomputed share mint.
pub fn make_multi_asset_deposit(
    state: &mut ContractState,
    env: &EnvInfo,
    info: &MsgInfo,
    msg: MsgMakeMultiAssetDepositRequest,
) -> (r: Result<ExecuteOutcome, ContractError>)
    requires
        old(state)@.wf(),
        old(state)@.counter_wf(),
    ensures
        final(state)@.wf(),
        final(state)@.counter_wf(),
        r is Err ==> final(state)@ == old(state)@,
        ({
            let pid = msg.pool_id@;
            let pools = old(state)@.pools;
            &&& (!has_pool(pools, pid) ==> r == Err::<ExecuteOutcome, ContractError>(
                ContractError::PoolNotFound,
            ))
            &&& (has_pool(pools, pid) && msg.deposits@.len() != 2 ==> r == Err::<
                ExecuteOutcome,
                ContractError,
            >(ContractError::InvalidAssetInput))
            &&& (has_pool(pools, pid) && msg.deposits@.len() == 2 ==> {
                let p = pools[pool_idx(pools, pid)];
                let d0 = msg.deposits@[0];
                let d1 = msg.deposits@[1];
                let toks = seq![d0.balance@, d1.balance@];
                let funds_ok = funds_cover(info.funds@.map_values(|c: Coin| c@), d0.balance@)
                    || funds_cover(info.funds@.map_values(|c: Coin| c@), d1.balance@);
                &&& (funds_ok && p.status != PoolStatus::Active ==> r == Err::<
                    ExecuteOutcome,
                    ContractError,
                >(ContractError::NotReadyForSwap))
                &&& (r is Ok <==> funds_ok && p.status == PoolStatus::Active && !has_active(
                    old(state)@.active_orders,
                    d0.sender@,
                    pid,
                    d1.sender@,
                ) && multi_ok(p.assets, toks) && multi_fits(p.assets, toks, p.supply.amount)
                    && old(state)@.config.counter < u64::MAX)
                &&& (p.status == PoolStatus::Active && (funds_cover(
                    info.funds@.map_values(|c: Coin| c@),
                    d0.balance@,
                ) || funds_cover(info.funds@.map_values(|c: Coin| c@), d1.balance@))
                    && has_active(old(state)@.active_orders, d0.sender@, pid, d1.sender@) ==> r
                    == Err::<ExecuteOutcome, ContractError>(
                    ContractError::ErrPreviousOrderNotCompleted,
                ))
                &&& (r matches Ok(o) ==> {
                    let oid = old(state)@.config.counter + 1;
                    let go = final(state)@.orders.last();
                    &&& final(state)@ == (GState {
                        config: Config {
                            counter: (old(state)@.config.counter + 1) as u64,
                            token_code_id: old(state)@.config.token_code_id,
                        },
                        orders: old(state)@.orders.push(go),
                        active_orders: old(state)@.active_orders.push(
                            crate::state::GActive {
                                source_maker: d0.sender@,
                                pool_id: pid,
                                destination_taker: d1.sender@,
                                order_id: oid as int,
                            },
                        ),
                        ..old(state)@
                    })
                    &&& go.id == oid as int
                    &&& go.pool_id == pid
                    &&& go.source_maker == d0.sender@
                    &&& go.destination_taker == d1.sender@
                    &&& go.deposits == toks
                    &&& go.status == OrderStatus::Pending
                    &&& go.chain_id == msg.chain_id@
                    &&& go.created_at == env.block_height as int
                    &&& o.channel@ == p.counter_party_channel
                    &&& o.packet.payload == PacketPayload::MakeMultiDeposit(msg)
                    &&& (o.packet.state_change matches Some(sc) && sc.multi_deposit_order_id
                        == Some(oid as u64) && sc.pool_tokens@.len() == 1 && (
                    sc.pool_tokens@[0])@.amount == multi_minted(p.assets, toks, p.supply.amount))
                    &&& o.effects@.len() == 0
                })
            })
        }),
{
    let i: usize = match state.find_pool_index(&msg.pool_id) {
        Some(i) => i,
        None => {
            return Err(ContractError::PoolNotFound);
        },
    };
    proof {
        lemma_pool_idx_is(state@.pools, msg.pool_id@, i as int);
        assert(state@.pools[i as int].wf());
    }
    if msg.deposits.len() != 2 {
        return Err(ContractError::InvalidAssetInput);
    }
    let funds_ok = find_exact_funds(&info.funds, &msg.deposits[0].balance)
        || find_exact_funds(&info.funds, &msg.deposits[1].balance);
    if !funds_ok {
        return Err(ContractError::FundsMismatch);
    }
    if !matches!(state.pools[i].status, PoolStatus::Active) {
        return Err(ContractError::NotReadyForSwap);
    }
    match state.find_active_index(
        &msg.deposits[0].sender,
        &msg.pool_id,
        &msg.deposits[1].sender,
    ) {
        Some(_) => {
            return Err(ContractError::ErrPreviousOrderNotCompleted);
        },
        None => {},
    }
    let mut tokens: Vec<Coin> = Vec::new();
    tokens.push(msg.deposits[0].balance.dup());
    tokens.push(msg.deposits[1].balance.dup());
    proof {
        assert(tokens@.map_values(|c: Coin| c@) =~= seq![
            msg.deposits@[0].balance@,
            msg.deposits@[1].balance@,
        ]);
    }
    let fee_rate: u32 = state.pools[i].swap_fee;
    let amm = InterchainMarketMaker::new(&state.pools[i], fee_rate);
    let shares: u128 = match amm.deposit_multi_asset(&tokens) {
        Ok(t) => t.0,
        Err(e) => {
            return Err(e);
        },
    };
    if state.config.counter == u64::MAX {
        return Err(ContractError::Overflow);
    }
    let oid: u64 = state.config.counter + 1;
    state.config.counter = oid;
    let order = MultiAssetDepositOrder {
        id: oid,
        chain_id: msg.chain_id.clone(),
        pool_id: msg.pool_id.clone(),
        source_maker: msg.deposits[0].sender.clone(),
        destination_taker: msg.deposits[1].sender.clone(),
        deposits: tokens,
        status: OrderStatus::Pending,
        created_at: env.block_height,
    };
    proof {
        assert(!has_order(state@.orders, order@.pool_id, order@.id)) by {
            if has_order(state@.orders, order@.pool_id, order@.id) {
                let j = choose|j: int|
                    0 <= j < state@.orders.len() && (#[trigger] state@.orders[j]).pool_id
                        == order@.pool_id && state@.orders[j].id == order@.id;
                assert(state@.orders[j].id <= old(state)@.config.counter as int);
            }
        }
    }
    state.add_pending_order(order);
    proof {
        assert forall|k: int|
            0 <= k < state@.orders.len() implies (#[trigger] state@.orders[k]).id
            <= state@.config.counter as int by {
            if k < old(state)@.orders.len() {
                assert(state@.orders[k] == old(state)@.orders[k]);
            }
        }
    }
    let channel = match state.find_pool_index(&msg.pool_id) {
        Some(j) => state.pools[j].counter_party_channel.clone(),
        None => {
            proof {
                assert(false);
            }
            String::new()
        },
    };
    let mut pool_tokens: Vec<Coin> = Vec::new();
    pool_tokens.push(Coin { denom: msg.pool_id.clone(), amount: shares });
    let state_change = StateChange {
        in_tokens: Vec::new(),
        out_tokens: Vec::new(),
        pool_tokens,
        pool_id: None,
        multi_deposit_order_id: Some(oid),
        source_chain_id: None,
    };
    Ok(
        ExecuteOutcome {
            channel,
            packet: IBCSwapPacketData {
                payload: PacketPayload::MakeMultiDeposit(msg),
                state_change: Some(state_change),
            },
            effects: Vec::new(),
        },
    )
}

/// Withdraws a pending deposit order on the taker's behalf; the terminal
/// transition itself happens when the packet is received and acknowledged.
pub fn cancel_multi_asset_deposit(
    state: &mut ContractState,
    env: &EnvInfo,
    info: &MsgInfo,
    msg: MsgCancelMultiAssetDepositRequest,
) -> (r: Result<ExecuteOutcome, ContractError>)
    requires
        old(state)@.wf(),
    ensures
        final(state)@ == old(state)@,
        ({
            let pid = msg.pool_id@;
            let pools = old(state)@.pools;
            let orders = old(state)@.orders;
            &&& (!has_pool(pools, pid) ==> r == Err::<ExecuteOutcome, ContractError>(
                ContractError::PoolNotFound,
            ))
            &&& (has_pool(pools, pid) && !has_order(orders, pid, msg.order_id as int) ==> r
                == Err::<ExecuteOutcome, ContractError>(ContractError::ErrOrderNotFound))
            &&& (has_pool(pools, pid) && has_order(orders, pid, msg.order_id as int) ==> {
                let p = pools[pool_idx(pools, pid)];
                let o = orders[order_idx(orders, pid, msg.order_id as int)];
                &&& (r == Err::<ExecuteOutcome, ContractError>(ContractError::InvalidSender)
                    <==> o.destination_taker != info.sender@)
                &&& (o.destination_taker == info.sender@ ==> (r == Err::<
                    ExecuteOutcome,
                    ContractError,
                >(ContractError::ErrOrderAlreadyCompleted) <==> o.status != OrderStatus::Pending))
                &&& (r is Ok <==> o.destination_taker == info.sender@ && o.status
                    == OrderStatus::Pending)
                &&& (r matches Ok(out) ==> {
                    &&& out.channel@ == p.counter_party_channel
                    &&& out.packet.payload == PacketPayload::CancelMultiDeposit(msg)
                    &&& out.packet.state_change is None
                    &&& out.effects@.len() == 0
                })
            })
        }),
{
    let i: usize = match state.find_pool_index(&msg.pool_id) {
        Some(i) => i,
        None => {
            return Err(ContractError::PoolNotFound);
        },
    };
    proof {
        lemma_pool_idx_is(state@.pools, msg.pool_id@, i as int);
    }
    let oi: usize = match state.find_order_index(&msg.pool_id, msg.order_id) {
        Some(oi) => oi,
        None => {
            return Err(ContractError::ErrOrderNotFound);
        },
    };
    proof {
        lemma_order_idx_is(state@.orders, msg.pool_id@, msg.order_id as int, oi as int);
    }
    if !(state.orders[oi].destination_taker == info.sender) {
        return Err(ContractError::InvalidSender);
    }
    if !matches!(state.orders[oi].status, OrderStatus::Pending) {
        return Err(ContractError::ErrOrderAlreadyCompleted);
    }
    let channel = state.pools[i].counter_party_channel.clone();
    Ok(
        ExecuteOutcome {
            channel,
            packet: IBCSwapPacketData {
                payload: PacketPayload::CancelMultiDeposit(msg),
                state_change: None,
            },
            effects: Vec::new(),
        },
    )
}

/// Completes a pending deposit order on the taker's behalf: verifies the
/// attached funds against the taker-side deposit, prices the join, and
/// emits the take packet carrying the precomputed share mint.  A second
/// take of the same order fails as already completed and mints nothing.
pub fn take_multi_asset_deposit(
    state: &mut ContractState,
    env: &EnvInfo,
    info: &MsgInfo,
    msg: MsgTakeMultiAssetDepositRequest,
) -> (r: Result<ExecuteOutcome, ContractError>)
    requires
        old(state)@.wf(),
    ensures
        final(state)@ == old(state)@,
        ({
            let pid = msg.pool_id@;
            let pools = old(state)@.pools;
            let orders = old(state)@.orders;
            &&& (!has_pool(pools, pid) ==> r == Err::<ExecuteOutcome, ContractError>(
                ContractError::PoolNotFound,
            ))
            &&& (has_pool(pools, pid) && !has_order(orders, pid, msg.order_id as int) ==> r
                == Err::<ExecuteOutcome, ContractError>(ContractError::ErrOrderNotFound))
            &&& (has_pool(pools, pid) && has_order(orders, pid, msg.order_id as int) ==> {
                let p = pools[pool_idx(pools, pid)];
                let o = orders[order_idx(orders, pid, msg.order_id as int)];
                &&& (r == Err::<ExecuteOutcome, ContractError>(
                    ContractError::ErrFailedMultiAssetDeposit,
                ) <==> o.destination_taker != info.sender@)
                &&& (o.destination_taker == info.sender@ ==> (r == Err::<
                    ExecuteOutcome,
                    ContractError,
                >(ContractError::ErrOrderAlreadyCompleted) <==> o.status == OrderStatus::Complete))
                &&& (r is Ok <==> o.destination_taker == info.sender@ && o.status
                    != OrderStatus::Complete && o.deposits.len() == 2 && (exists|sidx: int|
                    #[trigger] first_source_idx_is(p.assets, sidx) && o.deposits[1].denom
                        == p.assets[sidx].balance.denom) && funds_cover(
                    info.funds@.map_values(|c: Coin| c@),
                    o.deposits[1],
                ) && (p.status == PoolStatus::Initialized && p.supply.amount == 0 || (multi_ok(
                    p.assets,
                    o.deposits,
                ) && multi_fits(p.assets, o.deposits, p.supply.amount))))
                &&& (r matches Ok(out) ==> {
                    &&& out.channel@ == p.counter_party_channel
                    &&& out.packet.payload == PacketPayload::TakeMultiDeposit(msg)
                    &&& (out.packet.state_change matches Some(sc) && sc.multi_deposit_order_id
                        == Some(msg.order_id) && sc.pool_tokens@.len() == 1)
                    &&& (!(p.status == PoolStatus::Initialized && p.supply.amount == 0) ==> (
                    out.packet.state_change matches Some(sc) && (sc.pool_tokens@[0])@.amount
                        == multi_minted(p.assets, o.deposits, p.supply.amount)))
                    &&& ((p.status == PoolStatus::Initialized && p.supply.amount == 0) ==> (
                    out.packet.state_change matches Some(sc) && (sc.pool_tokens@[0])@.amount
                        == crate::market::INIT_LP_TOKENS * crate::market::MULTIPLIER))
                })
            })
        }),
{
    let i: usize = match state.find_pool_index(&msg.pool_id) {
        Some(i) => i,
        None => {
            return Err(ContractError::PoolNotFound);
        },
    };
    proof {
        lemma_pool_idx_is(state@.pools, msg.pool_id@, i as int);
        assert(state@.pools[i as int].wf());
    }
    let oi: usize = match state.find_order_index(&msg.pool_id, msg.order_id) {
        Some(oi) => oi,
        None => {
            return Err(ContractError::ErrOrderNotFound);
        },
    };
    proof {
        lemma_order_idx_is(state@.orders, msg.pool_id@, msg.order_id as int, oi as int);
    }
    if !(state.orders[oi].destination_taker == info.sender) {
        return Err(ContractError::ErrFailedMultiAssetDeposit);
    }
    if matches!(state.orders[oi].status, OrderStatus::Complete) {
        return Err(ContractError::ErrOrderAlreadyCompleted);
    }
    if state.orders[oi].deposits.len() != 2 {
        return Err(ContractError::InvalidAssetInput);
    }
    let ghost gassets = state@.pools[i as int].assets;
    let ghost godep = state@.orders[oi as int].deposits;
    let src_asset = match state.pools[i].find_asset_by_side(PoolSide::SOURCE) {
        Ok(a) => a,
        Err(e) => {
            proof {
                assert(!(exists|sidx: int|
                    #[trigger] first_source_idx_is(gassets, sidx) && godep[1].denom == gassets[
                        sidx].balance.denom)) by {
                    if exists|sidx: int|
                        #[trigger] first_source_idx_is(gassets, sidx) && godep[1].denom
                            == gassets[sidx].balance.denom {
                        let sx = choose|sidx: int|
                            #[trigger] first_source_idx_is(gassets, sidx) && godep[1].denom
                                == gassets[sidx].balance.denom;
                        assert((gassets[sx]).side != PoolSide::SOURCE);
                    }
                }
            }
            return Err(e);
        },
    };
    let ghost si = choose|sx: int|
        0 <= sx < gassets.len() && (#[trigger] gassets[sx]).side == PoolSide::SOURCE
            && src_asset@ == gassets[sx] && (forall|j: int|
            0 <= j < sx ==> (#[trigger] gassets[j]).side != PoolSide::SOURCE);
    proof {
        assert(first_source_idx_is(gassets, si));
    }
    if !(state.orders[oi].deposits[1].denom == src_asset.balance.denom) {
        proof {
            lemma_first_source_unique(gassets, si);
            assert(!(exists|sidx: int|
                #[trigger] first_source_idx_is(gassets, sidx) && godep[1].denom == gassets[
                    sidx].balance.denom)) by {
                if exists|sidx: int|
                    #[trigger] first_source_idx_is(gassets, sidx) && godep[1].denom == gassets[
                        sidx].balance.denom {
                    let sx = choose|sidx: int|
                        #[trigger] first_source_idx_is(gassets, sidx) && godep[1].denom
                            == gassets[sidx].balance.denom;
                    assert(sx == si);
                }
            }
        }
        return Err(ContractError::FundsMismatch);
    }
    proof {
        assert(first_source_idx_is(gassets, si) && godep[1].denom == gassets[
            si].balance.denom);
    }
    if !find_exact_funds(&info.funds, &state.orders[oi].deposits[1]) {
        return Err(ContractError::FundsMismatch);
    }
    let order = state.orders[oi].dup();
    proof {
        assert(order@.deposits.len() == 2);
        assert(order.deposits@.len() == 2);
    }
    let fee_rate: u32 = state.pools[i].swap_fee;
    let amm = InterchainMarketMaker::new(&state.pools[i], fee_rate);
    let shares: u128 = match amm.deposit_multi_asset(&order.deposits) {
        Ok(t) => t.0,
        Err(e) => {
            return Err(e);
        },
    };
    let channel = state.pools[i].counter_party_channel.clone();
    let mut pool_tokens: Vec<Coin> = Vec::new();
    pool_tokens.push(Coin { denom: msg.pool_id.clone(), amount: shares });
    let state_change = StateChange {
        in_tokens: Vec::new(),
        out_tokens: Vec::new(),
        pool_tokens,
        pool_id: None,
        multi_deposit_order_id: Some(msg.order_id),
        source_chain_id: None,
    };
    Ok(
        ExecuteOutcome {
            channel,
            packet: IBCSwapPacketData {
                payload: PacketPayload::TakeMultiDeposit(msg),
                state_change: Some(state_change),
            },
            effects: Vec::new(),
        },
    )
}

/// Redeems share tokens for a proportional slice of every pool asset: the
/// shares are pulled from the caller, the owed amounts are computed, and
/// the withdraw packet carries them to the counterparty; the pool is
/// debited when the acknowledgement returns.
#[verifier::rlimit(80)]
pub fn multi_asset_withdraw(
    state: &mut ContractState,
    env: &EnvInfo,
    info: &MsgInfo,
    msg: MsgMultiAssetWithdrawRequest,
) -> (r: Result<ExecuteOutcome, ContractError>)
    requires
        old(state)@.wf(),
    ensures
        final(state)@ == old(state)@,
        ({
            let pid = msg.pool_id@;
            let pools = old(state)@.pools;
            // The redeemed coin must be denominated by the pool's own
            // share token; any other denomination is rejected before the
            // pull effect is issued.
            &&& (msg.pool_token@.denom != pid <==> r == Err::<ExecuteOutcome, ContractError>(
                ContractError::DenomMismatch,
            ))
            &&& (r is Ok <==> msg.pool_token@.denom == pid && has_pool(pools, pid)
                && has_pool_token(old(state)@.pool_tokens, pid) && {
                let p = pools[pool_idx(pools, pid)];
                &&& p.supply.amount > 0
                &&& wd_all_within(p.assets, wd_ratio(msg.pool_token@.amount, p.supply.amount))
                &&& (exists|s: int|
                    0 <= s < p.assets.len() && (#[trigger] p.assets[s]).side == PoolSide::SOURCE)
                &&& (exists|s: int|
                    0 <= s < p.assets.len() && (#[trigger] p.assets[s]).side
                        == PoolSide::DESTINATION)
            })
            &&& (msg.pool_token@.denom == pid && !has_pool(pools, pid) ==> r == Err::<
                ExecuteOutcome,
                ContractError,
            >(ContractError::PoolNotFound))
            &&& (msg.pool_token@.denom == pid && has_pool(pools, pid) && !has_pool_token(
                old(state)@.pool_tokens,
                pid,
            ) ==> r == Err::<ExecuteOutcome, ContractError>(ContractError::LpTokenNotInitialized))
            &&& (msg.pool_token@.denom == pid && has_pool(pools, pid) && has_pool_token(
                old(state)@.pool_tokens,
                pid,
            ) ==> {
                let p = pools[pool_idx(pools, pid)];
                let lp = old(state)@.pool_tokens[pool_token_idx(old(state)@.pool_tokens, pid)];
                let ratio = wd_ratio(msg.pool_token@.amount, p.supply.amount);
                &&& (p.supply.amount == 0 ==> r == Err::<ExecuteOutcome, ContractError>(
                    ContractError::MathUndefined,
                ))
                &&& (r matches Ok(out) ==> {
                    &&& out.channel@ == p.counter_party_channel
                    &&& out.packet.payload == PacketPayload::MultiWithdraw(msg)
                    &&& out.effects@.len() == 1
                    &&& (out.effects@[0] matches TokenEffect::TransferLpFromUser {
                        owner,
                        lp_token,
                        amount,
                    } && owner@ == info.sender@ && lp_token@ == lp.address && amount
                        == msg.pool_token@.amount)
                    &&& (out.packet.state_change matches Some(sc) && sc.out_tokens@.len() == 2
                        && forall|s: int|
                        0 <= s < p.assets.len() && (#[trigger] p.assets[s]).side
                            == PoolSide::SOURCE && (forall|j: int|
                            0 <= j < s ==> (#[trigger] p.assets[j]).side != PoolSide::SOURCE)
                            ==> (sc.out_tokens@[0])@ == (GCoin {
                            denom: p.assets[s].balance.denom,
                            amount: wd_out(p.assets[s].balance.amount, ratio),
                        }))
                })
            })
        }),
{
    if !(msg.pool_token.denom == msg.pool_id) {
        return Err(ContractError::DenomMismatch);
    }
    let i: usize = match state.find_pool_index(&msg.pool_id) {
        Some(i) => i,
        None => {
            return Err(ContractError::PoolNotFound);
        },
    };
    proof {
        lemma_pool_idx_is(state@.pools, msg.pool_id@, i as int);
        assert(state@.pools[i as int].wf());
    }
    let ti: usize = match state.find_pool_token_index(&msg.pool_id) {
        Some(t) => t,
        None => {
            return Err(ContractError::LpTokenNotInitialized);
        },
    };
    proof {
        lemma_pool_token_idx_is(state@.pool_tokens, msg.pool_id@, ti as int);
    }
    let fee_rate: u32 = state.pools[i].swap_fee;
    let amm = InterchainMarketMaker::new(&state.pools[i], fee_rate);
    let refunds: Vec<Coin> = match amm.multi_asset_withdraw(msg.pool_token.dup()) {
        Ok(v) => v,
        Err(e) => {
            return Err(e);
        },
    };
    let src_asset = match state.pools[i].find_asset_by_side(PoolSide::SOURCE) {
        Ok(a) => a,
        Err(e) => {
            proof {
                let ghost ga = state@.pools[i as int].assets;
                assert(!(exists|s: int|
                    0 <= s < ga.len() && (#[trigger] ga[s]).side == PoolSide::SOURCE)) by {
                    if exists|s: int|
                        0 <= s < ga.len() && (#[trigger] ga[s]).side == PoolSide::SOURCE {
                        let sx = choose|s: int|
                            0 <= s < ga.len() && (#[trigger] ga[s]).side == PoolSide::SOURCE;
                        assert((ga[sx]).side != PoolSide::SOURCE);
                    }
                }
            }
            return Err(e);
        },
    };
    let dst_asset = match state.pools[i].find_asset_by_side(PoolSide::DESTINATION) {
        Ok(a) => a,
        Err(e) => {
            proof {
                let ghost ga = state@.pools[i as int].assets;
                assert(!(exists|s: int|
                    0 <= s < ga.len() && (#[trigger] ga[s]).side == PoolSide::DESTINATION)) by {
                    if exists|s: int|
                        0 <= s < ga.len() && (#[trigger] ga[s]).side == PoolSide::DESTINATION {
                        let sx = choose|s: int|
                            0 <= s < ga.len() && (#[trigger] ga[s]).side
                                == PoolSide::DESTINATION;
                        assert((ga[sx]).side != PoolSide::DESTINATION);
                    }
                }
            }
            return Err(e);
        },
    };
    let mut source_out = Coin { denom: String::new(), amount: 0 };
    let mut dest_out = Coin { denom: String::new(), amount: 0 };
    let ghost gp = state@.pools[i as int];
    let ghost ratio = wd_ratio(msg.pool_token@.amount, gp.supply.amount);
    let ghost srcidx: int = choose|s: int|
        0 <= s < gp.assets.len() && (#[trigger] gp.assets[s]).side == PoolSide::SOURCE && gp.assets[
            s] == src_asset@;
    let n: usize = refunds.len();
    let mut k: usize = 0;
    let mut found_src: bool = false;
    while k < n
        invariant
            n == refunds@.len(),
            k <= n,
            gp == state@.pools[i as int],
            i < state@.pools.len(),
            gp.wf(),
            n == gp.assets.len(),
            forall|j: int|
                0 <= j < n ==> (#[trigger] refunds@[j])@ == (GCoin {
                    denom: gp.assets[j].balance.denom,
                    amount: wd_out(gp.assets[j].balance.amount, ratio),
                }),
            0 <= srcidx < gp.assets.len(),
            gp.assets[srcidx] == src_asset@,
            found_src ==> source_out@ == refunds@[srcidx]@,
            !found_src ==> forall|j: int|
                0 <= j < k ==> (#[trigger] gp.assets[j]).balance.denom
                    != src_asset@.balance.denom,
        decreases n - k,
    {
        if refunds[k].denom == src_asset.balance.denom {
            proof {
                let ghost kk: int = k as int;
                if kk != srcidx {
                    assert(gp.assets[kk].balance.denom == gp.assets[srcidx].balance.denom);
                    if kk < srcidx {
                        assert(gp.assets[kk].balance.denom != gp.assets[srcidx].balance.denom);
                    } else {
                        assert(gp.assets[srcidx].balance.denom != gp.assets[kk].balance.denom);
                    }
                }
            }
            source_out = refunds[k].dup();
            found_src = true;
        }
        if refunds[k].denom == dst_asset.balance.denom {
            dest_out = refunds[k].dup();
        }
        k = k + 1;
    }
    proof {
        assert(found_src) by {
            if !found_src {
                assert(gp.assets[srcidx].balance.denom == src_asset@.balance.denom);
            }
        }
    }
    let channel = state.pools[i].counter_party_channel.clone();
    let lp_token = state.pool_tokens[ti].address.clone();
    let mut effects: Vec<TokenEffect> = Vec::new();
    effects.push(
        TokenEffect::TransferLpFromUser {
            owner: info.sender.clone(),
            lp_token,
            amount: msg.pool_token.amount,
        },
    );
    let mut in_tokens: Vec<Coin> = Vec::new();
    in_tokens.push(msg.pool_token.dup());
    let mut pool_tokens_v: Vec<Coin> = Vec::new();
    pool_tokens_v.push(msg.pool_token.dup());
    let mut out_tokens: Vec<Coin> = Vec::new();
    out_tokens.push(source_out);
    out_tokens.push(dest_out);
    let state_change = StateChange {
        in_tokens,
        out_tokens,
        pool_tokens: pool_tokens_v,
        pool_id: None,
        multi_deposit_order_id: None,
        source_chain_id: None,
    };
    proof {
        assert forall|s: int|
            0 <= s < gp.assets.len() && (#[trigger] gp.assets[s]).side == PoolSide::SOURCE && (
            forall|j: int| 0 <= j < s ==> (#[trigger] gp.assets[j]).side != PoolSide::SOURCE)
            implies source_out@ == (GCoin {
            denom: gp.assets[s].balance.denom,
            amount: wd_out(gp.assets[s].balance.amount, ratio),
        }) by {
            if s < srcidx {
                assert((gp.assets[s]).side != PoolSide::SOURCE);
            }
            if srcidx < s {
                assert((gp.assets[srcidx]).side != PoolSide::SOURCE);
            }
            assert(s == srcidx);
        }
    }
    Ok(
        ExecuteOutcome {
            channel,
            packet: IBCSwapPacketData {
                payload: PacketPayload::MultiWithdraw(msg),
                state_change: Some(state_change),
            },
            effects,
        },
    )
}

/// Prices a swap, enforces the caller's slippage floor, and emits the swap
/// packet carrying the computed output; the pool balances move when the
/// acknowledgement returns.
pub fn swap(
    state: &mut ContractState,
    env: &EnvInfo,
    info: &MsgInfo,
    msg: MsgSwapRequest,
) -> (r: Result<ExecuteOutcome, ContractError>)
    requires
        old(state)@.wf(),
    ensures
        final(state)@ == old(state)@,
        ({
            let pid = msg.pool_id@;
            let pools = old(state)@.pools;
            let funds = info.funds@.map_values(|c: Coin| c@);
            &&& (!has_pool(pools, pid) ==> r == Err::<ExecuteOutcome, ContractError>(
                ContractError::PoolNotFound,
            ))
            &&& (has_pool(pools, pid) ==> {
                let p = pools[pool_idx(pools, pid)];
                let computable = if msg.swap_type == SwapMsgType::LEFT {
                    swap_ok(p, msg.token_in@, msg.token_out@.denom)
                } else {
                    offer_ok(p, msg.token_in@, msg.token_out@, p.swap_fee)
                };
                let got = if msg.swap_type == SwapMsgType::LEFT {
                    swap_out_amount(p, msg.token_in@, msg.token_out@.denom)
                } else {
                    offer_in_amount(p, msg.token_in@, msg.token_out@, p.swap_fee)
                };
                let floor_amt = msg.token_out@.amount * (10000 - msg.slippage) / 10000;
                &&& (r == Err::<ExecuteOutcome, ContractError>(ContractError::NotReadyForSwap)
                    <==> p.status != PoolStatus::Active)
                &&& (p.status == PoolStatus::Active && !funds_cover(funds, msg.token_in@) ==> r
                    == Err::<ExecuteOutcome, ContractError>(ContractError::FundsMismatch))
                &&& (p.status == PoolStatus::Active && funds_cover(funds, msg.token_in@)
                    && msg.slippage > 10000 ==> r == Err::<ExecuteOutcome, ContractError>(
                    ContractError::InvalidSlippage,
                ))
                &&& (r is Ok <==> p.status == PoolStatus::Active && funds_cover(
                    funds,
                    msg.token_in@,
                ) && msg.slippage <= 10000 && computable && got >= floor_amt)
                &&& (p.status == PoolStatus::Active && funds_cover(funds, msg.token_in@)
                    && msg.slippage <= 10000 && computable && got < floor_amt ==> r == Err::<
                    ExecuteOutcome,
                    ContractError,
                >(ContractError::SlippageExceeded))
                &&& (r matches Ok(out) ==> {
                    &&& out.channel@ == p.counter_party_channel
                    &&& out.packet.payload == PacketPayload::Swap(msg)
                    &&& (out.packet.state_change matches Some(sc) && sc.out_tokens@.len() == 1)
                    &&& (out.packet.state_change matches Some(sc) ==> {
                        let got = (sc.out_tokens@[0])@.amount;
                        // The slippage floor the caller demanded holds of
                        // what the packet promises.
                        &&& got >= msg.token_out@.amount * (10000 - msg.slippage) / 10000
                        &&& (msg.swap_type == SwapMsgType::LEFT ==> got == swap_out_amount(
                            p,
                            msg.token_in@,
                            msg.token_out@.denom,
                        ) && (sc.out_tokens@[0])@.denom == msg.token_out@.denom)
                        &&& (msg.swap_type == SwapMsgType::RIGHT ==> got == offer_in_amount(
                            p,
                            msg.token_in@,
                            msg.token_out@,
                            p.swap_fee,
                        ) && (sc.out_tokens@[0])@.denom == msg.token_in@.denom)
                    })
                })
            })
        }),
{
    let i: usize = match state.find_pool_index(&msg.pool_id) {
        Some(i) => i,
        None => {
            return Err(ContractError::PoolNotFound);
        },
    };
    proof {
        lemma_pool_idx_is(state@.pools, msg.pool_id@, i as int);
        assert(state@.pools[i as int].wf());
    }
    if !matches!(state.pools[i].status, PoolStatus::Active) {
        return Err(ContractError::NotReadyForSwap);
    }
    if !find_exact_funds(&info.funds, &msg.token_in) {
        return Err(ContractError::FundsMismatch);
    }
    if msg.slippage > 10000 {
        return Err(ContractError::InvalidSlippage);
    }
    let fee_rate: u32 = state.pools[i].swap_fee;
    let amm = InterchainMarketMaker::new(&state.pools[i], fee_rate);
    let token_out: Coin = match msg.swap_type {
        SwapMsgType::LEFT => {
            match amm.compute_swap(msg.token_in.dup(), &msg.token_out.denom) {
                Ok(c) => c,
                Err(e) => {
                    return Err(e);
                },
            }
        },
        SwapMsgType::RIGHT => {
            match amm.compute_offer_amount(msg.token_in.dup(), msg.token_out.dup()) {
                Ok(c) => c,
                Err(e) => {
                    return Err(e);
                },
            }
        },
    };
    let factor: u64 = 10000 - msg.slippage;
    let expected_floor: bool = match crate::math::mul_div_floor(
        msg.token_out.amount,
        factor as u128,
        10000,
    ) {
        Some(expected) => token_out.amount >= expected,
        None => false,
    };
    if !expected_floor {
        return Err(ContractError::SlippageExceeded);
    }
    let channel = state.pools[i].counter_party_channel.clone();
    let mut out_tokens: Vec<Coin> = Vec::new();
    out_tokens.push(token_out);
    let state_change = StateChange {
        in_tokens: Vec::new(),
        out_tokens,
        pool_tokens: Vec::new(),
        pool_id: None,
        multi_deposit_order_id: None,
        source_chain_id: None,
    };
    Ok(
        ExecuteOutcome {
            channel,
            packet: IBCSwapPacketData {
                payload: PacketPayload::Swap(msg),
                state_change: Some(state_change),
            },
            effects: Vec::new(),
        },
    )
}

/// Creates the contract's initial state: an empty store with the order
/// counter at zero and the given share-token code id.
pub fn instantiate(token_code_id: u64) -> (s: ContractState)
    ensures
        s@.wf(),
        s@.counter_wf(),
        s@.config == (crate::types::Config { counter: 0, token_code_id }),
        s@.pools.len() == 0,
        s@.orders.len() == 0,
{
    ContractState::initialize(token_code_id)
}

/// Records the address of a freshly instantiated share-token contract for
/// the pool the pending creation left behind, consuming the marker.
pub fn set_pool_token(state: &mut ContractState, lp_token_address: String) -> (r: Result<
    (),
    ContractError,
>)
    requires
        old(state)@.wf(),
    ensures
        final(state)@.wf(),
        r is Err ==> final(state)@ == old(state)@,
        old(state)@.temp is None <==> r == Err::<(), ContractError>(ContractError::MalformedPacket),
        r matches Ok(o) ==> {
            &&& old(state)@.temp matches Some(pid) && has_pool_token(
                final(state)@.pool_tokens,
                pid,
            )
            &&& final(state)@.temp is None
            &&& final(state)@.pools == old(state)@.pools
            &&& final(state)@.orders == old(state)@.orders
            &&& final(state)@.active_orders == old(state)@.active_orders
            &&& final(state)@.config == old(state)@.config
        },
{
    let pool_id: String = match &state.temp {
        Some(p) => p.clone(),
        None => {
            return Err(ContractError::MalformedPacket);
        },
    };
    state.temp = None;
    proof {
        assert(state@.pools == old(state)@.pools && state@.pool_tokens == old(
            state,
        )@.pool_tokens && state@.orders == old(state)@.orders && state@.active_orders == old(
            state,
        )@.active_orders);
        assert(state@.wf());
    }
    match state.find_pool_token_index(&pool_id) {
        Some(t) => {
            proof {
                lemma_pool_token_idx_is(state@.pool_tokens, pool_id@, t as int);
            }
            state.remove_pool_token_at(t);
        },
        None => {},
    }
    proof {
        assert(!has_pool_token(state@.pool_tokens, pool_id@)) by {
            if has_pool_token(state@.pool_tokens, pool_id@) {
                let j = choose|j: int|
                    0 <= j < state@.pool_tokens.len() && (
                    #[trigger] state@.pool_tokens[j]).pool_id == pool_id@;
                assert(state@.pool_tokens[j].pool_id != pool_id@);
            }
        }
    }
    let ghost gid = pool_id@;
    state.insert_pool_token(pool_id, lp_token_address);
    proof {
        assert(state@.pool_tokens.last().pool_id == gid);
    }
    Ok(())
}

/// Dispatches an inbound command to its handler; the closed union makes
/// the dispatch exhaustive.
pub fn execute(
    state: &mut ContractState,
    env: &EnvInfo,
    info: &MsgInfo,
    msg: crate::types::ExecuteMsg,
) -> (r: Result<ExecuteOutcome, ContractError>)
    requires
        old(state)@.wf(),
        old(state)@.counter_wf(),
    ensures
        final(state)@.wf(),
        final(state)@.counter_wf(),
        r is Err ==> final(state)@ == old(state)@,
{
    match msg {
        crate::types::ExecuteMsg::MakePool(m) => {
            let r = make_pool(state, env, info, m);
            proof {
                if r is Ok {
                    assert forall|k: int|
                        0 <= k < state@.orders.len() implies (#[trigger] state@.orders[k]).id
                        <= state@.config.counter as int by {
                        assert(state@.orders[k] == old(state)@.orders[k]);
                    }
                }
            }
            r
        },
        crate::types::ExecuteMsg::TakePool(m) => {
            let r = take_pool(state, env, info, m);
            proof {
                if r is Ok {
                    assert forall|k: int|
                        0 <= k < state@.orders.len() implies (#[trigger] state@.orders[k]).id
                        <= state@.config.counter as int by {
                        assert(state@.orders[k] == old(state)@.orders[k]);
                    }
                }
            }
            r
        },
        crate::types::ExecuteMsg::CancelPool(m) => cancel_pool(state, env, info, m),
        crate::types::ExecuteMsg::SingleAssetDeposit(m) => single_asset_deposit(
            state,
            env,
            info,
            m,
        ),
        crate::types::ExecuteMsg::MakeMultiAssetDeposit(m) => make_multi_asset_deposit(
            state,
            env,
            info,
            m,
        ),
        crate::types::ExecuteMsg::CancelMultiAssetDeposit(m) => cancel_multi_asset_deposit(
            state,
            env,
            info,
            m,
        ),
        crate::types::ExecuteMsg::TakeMultiAssetDeposit(m) => take_multi_asset_deposit(
            state,
            env,
            info,
            m,
        ),
        crate::types::ExecuteMsg::MultiAssetWithdraw(m) => multi_asset_withdraw(
            state,
            env,
            info,
            m,
        ),
        crate::types::ExecuteMsg::Swap(m) => swap(state, env, info, m),
    }
}

} // verus!
