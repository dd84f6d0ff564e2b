//! Read-only queries over the contract state.  Listing queries paginate by
//! position with an optional limit, capped at thirty entries and
//! defaulting to ten.

use vstd::prelude::*;

verus! {

use crate::error::ContractError;
use crate::market::{
    Coin, InterchainLiquidityPool, InterchainMarketMaker, PoolStatus,
};
use crate::state::{
    ContractState, has_pool, pool_idx, has_pool_token, pool_token_idx, has_order, order_idx,
    has_active, lemma_pool_idx_is, lemma_pool_token_idx_is, lemma_order_idx_is,
};
use crate::types::{Config, MultiAssetDepositOrder};

/// Largest page a listing query returns.
pub const MAX_LIMIT: u32 = 30;

/// Page size when the caller names none.
pub const DEFAULT_LIMIT: u32 = 10;

/// The effective page size: the requested one, defaulted and capped.
pub open spec fn effective_limit(limit: Option<u32>) -> int {
    let l = match limit {
        Some(l) => l as int,
        None => DEFAULT_LIMIT as int,
    };
    if l > MAX_LIMIT as int {
        MAX_LIMIT as int
    } else {
        l
    }
}

/// The process-wide configuration.
pub fn query_config(state: &ContractState) -> (c: Config)
    ensures
        c == state@.config,
{
    state.config
}

/// The pool stored under the identifier.
pub fn query_interchain_pool(state: &ContractState, pool_id: &String) -> (r: Result<
    InterchainLiquidityPool,
    ContractError,
>)
    requires
        state@.wf(),
    ensures
        r is Ok <==> has_pool(state@.pools, pool_id@),
        r matches Ok(p) ==> p@ == state@.pools[pool_idx(state@.pools, pool_id@)],
        r is Err ==> r == Err::<InterchainLiquidityPool, ContractError>(
            ContractError::PoolNotFound,
        ),
{
    match state.find_pool_index(pool_id) {
        Some(i) => {
            proof {
                lemma_pool_idx_is(state@.pools, pool_id@, i as int);
            }
            Ok(state.pools[i].dup())
        },
        None => Err(ContractError::PoolNotFound),
    }
}

/// A page of stored pools, starting at the given position.
pub fn query_interchain_pool_list(state: &ContractState, start: usize, limit: Option<u32>) -> (r:
    Vec<InterchainLiquidityPool>)
    ensures
        ({
            let begin = if start as int <= state@.pools.len() as int {
                start as int
            } else {
                state@.pools.len() as int
            };
            let want = effective_limit(limit);
            let avail = state@.pools.len() - begin;
            let count = if want <= avail {
                want
            } else {
                avail
            };
            &&& r@.len() == count
            &&& forall|k: int| 0 <= k < count ==> (#[trigger] r@[k])@ == state@.pools[begin + k]
        }),
{
    let lim: u32 = match limit {
        Some(l) => if l > MAX_LIMIT {
            MAX_LIMIT
        } else {
            l
        },
        None => DEFAULT_LIMIT,
    };
    let n: usize = state.pools.len();
    let begin: usize = if start <= n {
        start
    } else {
        n
    };
    let mut out: Vec<InterchainLiquidityPool> = Vec::new();
    let mut i: usize = begin;
    while i < n && out.len() < lim as usize
        invariant
            n == state@.pools.len(),
            begin <= i <= n,
            out@.len() == i - begin,
            out@.len() <= lim as int,
            forall|k: int|
                0 <= k < out@.len() ==> (#[trigger] out@[k])@ == state@.pools[begin + k],
            i - begin <= lim as int,
            i < n ==> out@.len() <= lim as int,
        decreases n - i,
    {
        out.push(state.pools[i].dup());
        i = i + 1;
    }
    out
}

/// The deposit order stored under the (pool, order) key.
pub fn query_order(state: &ContractState, pool_id: &String, order_id: u64) -> (r: Result<
    MultiAssetDepositOrder,
    ContractError,
>)
    requires
        state@.wf(),
    ensures
        r is Ok <==> has_order(state@.orders, pool_id@, order_id as int),
        r matches Ok(o) ==> o@ == state@.orders[order_idx(state@.orders, pool_id@, order_id as int)],
        r is Err ==> r == Err::<MultiAssetDepositOrder, ContractError>(
            ContractError::ErrOrderNotFound,
        ),
{
    match state.find_order_index(pool_id, order_id) {
        Some(i) => {
            proof {
                lemma_order_idx_is(state@.orders, pool_id@, order_id as int, i as int);
            }
            Ok(state.orders[i].dup())
        },
        None => Err(ContractError::ErrOrderNotFound),
    }
}

/// A page of stored deposit orders, starting at the given position.
pub fn query_orders(state: &ContractState, start: usize, limit: Option<u32>) -> (r: Vec<
    MultiAssetDepositOrder,
>)
    ensures
        ({
            let begin = if start as int <= state@.orders.len() as int {
                start as int
            } else {
                state@.orders.len() as int
            };
            let want = effective_limit(limit);
            let avail = state@.orders.len() - begin;
            let count = if want <= avail {
                want
            } else {
                avail
            };
            &&& r@.len() == count
            &&& forall|k: int| 0 <= k < count ==> (#[trigger] r@[k])@ == state@.orders[begin + k]
        }),
{
    let lim: u32 = match limit {
        Some(l) => if l > MAX_LIMIT {
            MAX_LIMIT
        } else {
            l
        },
        None => DEFAULT_LIMIT,
    };
    let n: usize = state.orders.len();
    let begin: usize = if start <= n {
        start
    } else {
        n
    };
    let mut out: Vec<MultiAssetDepositOrder> = Vec::new();
    let mut i: usize = begin;
    while i < n && out.len() < lim as usize
        invariant
            n == state@.orders.len(),
            begin <= i <= n,
            out@.len() == i - begin,
            out@.len() <= lim as int,
            forall|k: int|
                0 <= k < out@.len() ==> (#[trigger] out@[k])@ == state@.orders[begin + k],
        decreases n - i,
    {
        out.push(state.orders[i].dup());
        i = i + 1;
    }
    out
}

/// The share-token address recorded for the pool.
pub fn query_pool_address(state: &ContractState, pool_id: &String) -> (r: Result<
    String,
    ContractError,
>)
    requires
        state@.wf(),
    ensures
        r is Ok <==> has_pool_token(state@.pool_tokens, pool_id@),
        r matches Ok(a) ==> a@ == state@.pool_tokens[pool_token_idx(
            state@.pool_tokens,
            pool_id@,
        )].address,
        r is Err ==> r == Err::<String, ContractError>(ContractError::LpTokenNotInitialized),
{
    match state.find_pool_token_index(pool_id) {
        Some(i) => {
            proof {
                lemma_pool_token_idx_is(state@.pool_tokens, pool_id@, i as int);
            }
            Ok(state.pool_tokens[i].address.clone())
        },
        None => Err(ContractError::LpTokenNotInitialized),
    }
}

/// A page of recorded share-token addresses, starting at the given
/// position.
pub fn query_pool_list(state: &ContractState, start: usize, limit: Option<u32>) -> (r: Vec<String>)
    ensures
        ({
            let begin = if start as int <= state@.pool_tokens.len() as int {
                start as int
            } else {
                state@.pool_tokens.len() as int
            };
            let want = effective_limit(limit);
            let avail = state@.pool_tokens.len() - begin;
            let count = if want <= avail {
                want
            } else {
                avail
            };
            &&& r@.len() == count
            &&& forall|k: int|
                0 <= k < count ==> (#[trigger] r@[k])@ == state@.pool_tokens[begin + k].address
        }),
{
    let lim: u32 = match limit {
        Some(l) => if l > MAX_LIMIT {
            MAX_LIMIT
        } else {
            l
        },
        None => DEFAULT_LIMIT,
    };
    let n: usize = state.pool_tokens.len();
    let begin: usize = if start <= n {
        start
    } else {
        n
    };
    let mut out: Vec<String> = Vec::new();
    let mut i: usize = begin;
    while i < n && out.len() < lim as usize
        invariant
            n == state@.pool_tokens.len(),
            begin <= i <= n,
            out@.len() == i - begin,
            out@.len() <= lim as int,
            forall|k: int|
                0 <= k < out@.len() ==> (#[trigger] out@[k])@ == state@.pool_tokens[begin
                    + k].address,
        decreases n - i,
    {
        out.push(state.pool_tokens[i].address.clone());
        i = i + 1;
    }
    out
}

/// Quote of an exact-in swap against the stored pool.
pub fn query_left_swap(
    state: &ContractState,
    pool_id: &String,
    token_in: Coin,
    token_out: Coin,
) -> (r: Result<Coin, ContractError>)
    requires
        state@.wf(),
    ensures
        !has_pool(state@.pools, pool_id@) ==> r == Err::<Coin, ContractError>(
            ContractError::PoolNotFound,
        ),
        has_pool(state@.pools, pool_id@) && state@.pools[pool_idx(state@.pools, pool_id@)].status
            != PoolStatus::Active ==> r == Err::<Coin, ContractError>(
            ContractError::NotReadyForSwap,
        ),
        r is Ok <==> has_pool(state@.pools, pool_id@) && state@.pools[pool_idx(
            state@.pools,
            pool_id@,
        )].status == PoolStatus::Active && crate::market::swap_ok(
            state@.pools[pool_idx(state@.pools, pool_id@)],
            token_in@,
            token_out@.denom,
        ),
        r matches Ok(c) ==> has_pool(state@.pools, pool_id@) && c@.amount
            == crate::market::swap_out_amount(
            state@.pools[pool_idx(state@.pools, pool_id@)],
            token_in@,
            token_out@.denom,
        ),
{
    let i: usize = match state.find_pool_index(pool_id) {
        Some(i) => i,
        None => {
            return Err(ContractError::PoolNotFound);
        },
    };
    proof {
        lemma_pool_idx_is(state@.pools, pool_id@, i as int);
        assert(state@.pools[i as int].wf());
    }
    if !matches!(state.pools[i].status, PoolStatus::Active) {
        return Err(ContractError::NotReadyForSwap);
    }
    let fee_rate: u32 = state.pools[i].swap_fee;
    let amm = InterchainMarketMaker::new(&state.pools[i], fee_rate);
    amm.compute_swap(token_in, &token_out.denom)
}

/// Quote of an exact-out swap against the stored pool.
pub fn query_right_swap(
    state: &ContractState,
    pool_id: &String,
    token_in: Coin,
    token_out: Coin,
) -> (r: Result<Coin, ContractError>)
    requires
        state@.wf(),
    ensures
        !has_pool(state@.pools, pool_id@) ==> r == Err::<Coin, ContractError>(
            ContractError::PoolNotFound,
        ),
        has_pool(state@.pools, pool_id@) && state@.pools[pool_idx(state@.pools, pool_id@)].status
            != PoolStatus::Active ==> r == Err::<Coin, ContractError>(
            ContractError::NotReadyForSwap,
        ),
        r is Ok <==> has_pool(state@.pools, pool_id@) && state@.pools[pool_idx(
            state@.pools,
            pool_id@,
        )].status == PoolStatus::Active && crate::market::offer_ok(
            state@.pools[pool_idx(state@.pools, pool_id@)],
            token_in@,
            token_out@,
            state@.pools[pool_idx(state@.pools, pool_id@)].swap_fee,
        ),
        r matches Ok(c) ==> has_pool(state@.pools, pool_id@) && c@.amount
            == crate::market::offer_in_amount(
            state@.pools[pool_idx(state@.pools, pool_id@)],
            token_in@,
            token_out@,
            state@.pools[pool_idx(state@.pools, pool_id@)].swap_fee,
        ),
{
    let i: usize = match state.find_pool_index(pool_id) {
        Some(i) => i,
        None => {
            return Err(ContractError::PoolNotFound);
        },
    };
    proof {
        lemma_pool_idx_is(state@.pools, pool_id@, i as int);
        assert(state@.pools[i as int].wf());
    }
    if !matches!(state.pools[i].status, PoolStatus::Active) {
        return Err(ContractError::NotReadyForSwap);
    }
    let fee_rate: u32 = state.pools[i].swap_fee;
    let amm = InterchainMarketMaker::new(&state.pools[i], fee_rate);
    amm.compute_offer_amount(token_in, token_out)
}

/// The live deposit order of the (maker, pool, taker) triple.
pub fn query_active_orders(
    state: &ContractState,
    pool_id: &String,
    source_maker: &String,
    destination_taker: &String,
) -> (r: Result<MultiAssetDepositOrder, ContractError>)
    requires
        state@.wf(),
    ensures
        r is Ok <==> has_active(state@.active_orders, source_maker@, pool_id@, destination_taker@),
        r matches Ok(o) ==> o@.status == crate::types::OrderStatus::Pending && o@.source_maker
            == source_maker@ && o@.pool_id == pool_id@ && o@.destination_taker
            == destination_taker@,
        r is Err ==> r == Err::<MultiAssetDepositOrder, ContractError>(
            ContractError::ErrOrderNotFound,
        ),
{
    let ai: usize = match state.find_active_index(source_maker, pool_id, destination_taker) {
        Some(a) => a,
        None => {
            return Err(ContractError::ErrOrderNotFound);
        },
    };
    let order_id: u64 = state.active_orders[ai].order_id;
    proof {
        let a = state@.active_orders[ai as int];
        assert(has_order(state@.orders, a.pool_id, a.order_id));
    }
    match state.find_order_index(pool_id, order_id) {
        Some(oi) => {
            proof {
                let a = state@.active_orders[ai as int];
                lemma_order_idx_is(state@.orders, pool_id@, order_id as int, oi as int);
            }
            Ok(state.orders[oi].dup())
        },
        None => {
            proof {
                assert(false);
            }
            Err(ContractError::ErrOrderNotFound)
        },
    }
}

/// The per-asset amounts a redemption of the given share amount would pay
/// out.
pub fn query_rate(state: &ContractState, pool_id: &String, amount: u128) -> (r: Result<
    Vec<Coin>,
    ContractError,
>)
    requires
        state@.wf(),
    ensures
        !has_pool(state@.pools, pool_id@) ==> r == Err::<Vec<Coin>, ContractError>(
            ContractError::PoolNotFound,
        ),
        r matches Ok(v) ==> has_pool(state@.pools, pool_id@) && {
            let p = state@.pools[pool_idx(state@.pools, pool_id@)];
            let ratio = crate::market::wd_ratio(amount as int, p.supply.amount);
            &&& v@.len() == p.assets.len()
            &&& forall|k: int|
                0 <= k < p.assets.len() ==> (#[trigger] v@[k])@.amount == crate::market::wd_out(
                    p.assets[k].balance.amount,
                    ratio,
                )
        },
{
    let i: usize = match state.find_pool_index(pool_id) {
        Some(i) => i,
        None => {
            return Err(ContractError::PoolNotFound);
        },
    };
    proof {
        lemma_pool_idx_is(state@.pools, pool_id@, i as int);
        assert(state@.pools[i as int].wf());
    }
    let fee_rate: u32 = state.pools[i].swap_fee;
    let amm = InterchainMarketMaker::new(&state.pools[i], fee_rate);
    amm.multi_asset_withdraw(Coin { denom: pool_id.clone(), amount })
}

/// Dispatches a read-only query to its handler.
pub fn query(state: &ContractState, msg: crate::types::QueryMsg) -> (r: Result<
    crate::types::QueryResponse,
    ContractError,
>)
    requires
        state@.wf(),
    ensures
        msg matches crate::types::QueryMsg::Config ==> r == Ok::<
            crate::types::QueryResponse,
            ContractError,
        >(crate::types::QueryResponse::Config(state@.config)),
{
    match msg {
        crate::types::QueryMsg::Config => Ok(
            crate::types::QueryResponse::Config(query_config(state)),
        ),
        crate::types::QueryMsg::InterchainPool { pool_id } => match query_interchain_pool(
            state,
            &pool_id,
        ) {
            Ok(p) => Ok(crate::types::QueryResponse::Pool(p)),
            Err(e) => Err(e),
        },
        crate::types::QueryMsg::InterchainPoolList { start, limit } => Ok(
            crate::types::QueryResponse::PoolList(
                query_interchain_pool_list(state, start, limit),
            ),
        ),
        crate::types::QueryMsg::Order { pool_id, order_id } => match query_order(
            state,
            &pool_id,
            order_id,
        ) {
            Ok(o) => Ok(crate::types::QueryResponse::Order(o)),
            Err(e) => Err(e),
        },
        crate::types::QueryMsg::OrderList { start, limit } => Ok(
            crate::types::QueryResponse::OrderList(query_orders(state, start, limit)),
        ),
        crate::types::QueryMsg::PoolAddressByToken { pool_id } => match query_pool_address(
            state,
            &pool_id,
        ) {
            Ok(a) => Ok(crate::types::QueryResponse::PoolAddress(a)),
            Err(e) => Err(e),
        },
        crate::types::QueryMsg::PoolTokenList { start, limit } => Ok(
            crate::types::QueryResponse::PoolTokenList(query_pool_list(state, start, limit)),
        ),
        crate::types::QueryMsg::LeftSwap { pool_id, token_in, token_out } => match query_left_swap(
            state,
            &pool_id,
            token_in,
            token_out,
        ) {
            Ok(c) => Ok(crate::types::QueryResponse::SwapQuote(c)),
            Err(e) => Err(e),
        },
        crate::types::QueryMsg::RightSwap { pool_id, token_in, token_out } => match
            query_right_swap(state, &pool_id, token_in, token_out) {
            Ok(c) => Ok(crate::types::QueryResponse::SwapQuote(c)),
            Err(e) => Err(e),
        },
        crate::types::QueryMsg::QueryActiveOrders {
            source_maker,
            destination_taker,
            pool_id,
        } => match query_active_orders(state, &pool_id, &source_maker, &destination_taker) {
            Ok(o) => Ok(crate::types::QueryResponse::Order(o)),
            Err(e) => Err(e),
        },
        crate::types::QueryMsg::Rate { pool_id, amount } => match query_rate(
            state,
            &pool_id,
            amount,
        ) {
            Ok(v) => Ok(crate::types::QueryResponse::Rate(v)),
            Err(e) => Err(e),
        },
    }
}

} // verus!
