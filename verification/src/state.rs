//! The persisted state of one chain's contract copy, modelled as plain
//! records with explicit invariants.
//!
//! Pools and orders are keyed records; the active-order list is a derived
//! secondary index over the pending orders, keyed by the (maker, pool,
//! taker) triple.  Its maintenance contract — inserted when a pending order
//! is created, removed exactly when the order reaches a terminal status —
//! is part of the state invariant and is preserved by every mutation here.

use vstd::prelude::*;

verus! {

use crate::market::{InterchainLiquidityPool, GPool};
use crate::types::{Config, MultiAssetDepositOrder, GOrder, OrderStatus};

/// Address of the instantiated share-token contract of one pool.
#[derive(Clone, Debug)]
pub struct PoolToken {
    pub pool_id: String,
    pub address: String,
}

/// Ghost image of a share-token record.
pub ghost struct GPoolToken {
    pub pool_id: Seq<char>,
    pub address: Seq<char>,
}

impl View for PoolToken {
    type V = GPoolToken;

    open spec fn view(&self) -> GPoolToken {
        GPoolToken { pool_id: self.pool_id@, address: self.address@ }
    }
}

/// One entry of the active-order index: the (maker, pool, taker) triple and
/// the pending order it stands for.
#[derive(Clone, Debug)]
pub struct ActiveOrderKey {
    pub source_maker: String,
    pub pool_id: String,
    pub destination_taker: String,
    pub order_id: u64,
}

/// Ghost image of an active-order entry.
pub ghost struct GActive {
    pub source_maker: Seq<char>,
    pub pool_id: Seq<char>,
    pub destination_taker: Seq<char>,
    pub order_id: int,
}

impl View for ActiveOrderKey {
    type V = GActive;

    open spec fn view(&self) -> GActive {
        GActive {
            source_maker: self.source_maker@,
            pool_id: self.pool_id@,
            destination_taker: self.destination_taker@,
            order_id: self.order_id as int,
        }
    }
}

/// The whole persisted state of one chain's contract copy.
#[derive(Debug)]
pub struct ContractState {
    pub config: Config,
    pub pools: Vec<InterchainLiquidityPool>,
    pub pool_tokens: Vec<PoolToken>,
    pub orders: Vec<MultiAssetDepositOrder>,
    pub active_orders: Vec<ActiveOrderKey>,
    pub temp: Option<String>,
}

/// Ghost image of the contract state.
pub ghost struct GState {
    pub config: Config,
    pub pools: Seq<GPool>,
    pub pool_tokens: Seq<GPoolToken>,
    pub orders: Seq<GOrder>,
    pub active_orders: Seq<GActive>,
    pub temp: Option<Seq<char>>,
}

impl View for ContractState {
    type V = GState;

    open spec fn view(&self) -> GState {
        GState {
            config: self.config,
            pools: self.pools@.map_values(|p: InterchainLiquidityPool| p@),
            pool_tokens: self.pool_tokens@.map_values(|t: PoolToken| t@),
            orders: self.orders@.map_values(|o: MultiAssetDepositOrder| o@),
            active_orders: self.active_orders@.map_values(|a: ActiveOrderKey| a@),
            temp: match &self.temp {
                Some(s) => Some(s@),
                None => None,
            },
        }
    }
}

/// Whether some pool carries the identifier.
pub open spec fn has_pool(pools: Seq<GPool>, id: Seq<char>) -> bool {
    exists|i: int| 0 <= i < pools.len() && (#[trigger] pools[i]).id == id
}

/// Index of the pool carrying the identifier.
pub open spec fn pool_idx(pools: Seq<GPool>, id: Seq<char>) -> int {
    choose|i: int| 0 <= i < pools.len() && (#[trigger] pools[i]).id == id
}

/// Whether some share-token record belongs to the pool.
pub open spec fn has_pool_token(tokens: Seq<GPoolToken>, pool_id: Seq<char>) -> bool {
    exists|i: int| 0 <= i < tokens.len() && (#[trigger] tokens[i]).pool_id == pool_id
}

/// Index of the share-token record of the pool.
pub open spec fn pool_token_idx(tokens: Seq<GPoolToken>, pool_id: Seq<char>) -> int {
    choose|i: int| 0 <= i < tokens.len() && (#[trigger] tokens[i]).pool_id == pool_id
}

/// Whether some order carries the (pool, order) key.
pub open spec fn has_order(orders: Seq<GOrder>, pool_id: Seq<char>, order_id: int) -> bool {
    exists|i: int|
        0 <= i < orders.len() && (#[trigger] orders[i]).pool_id == pool_id && orders[i].id
            == order_id
}

/// Index of the order carrying the (pool, order) key.
pub open spec fn order_idx(orders: Seq<GOrder>, pool_id: Seq<char>, order_id: int) -> int {
    choose|i: int|
        0 <= i < orders.len() && (#[trigger] orders[i]).pool_id == pool_id && orders[i].id
            == order_id
}

/// Whether the active-order index holds the (maker, pool, taker) triple.
pub open spec fn has_active(
    actives: Seq<GActive>,
    maker: Seq<char>,
    pool_id: Seq<char>,
    taker: Seq<char>,
) -> bool {
    exists|i: int|
        0 <= i < actives.len() && (#[trigger] actives[i]).source_maker == maker
            && actives[i].pool_id == pool_id && actives[i].destination_taker == taker
}

/// Index of the (maker, pool, taker) triple in the active-order index.
pub open spec fn active_idx(
    actives: Seq<GActive>,
    maker: Seq<char>,
    pool_id: Seq<char>,
    taker: Seq<char>,
) -> int {
    choose|i: int|
        0 <= i < actives.len() && (#[trigger] actives[i]).source_maker == maker
            && actives[i].pool_id == pool_id && actives[i].destination_taker == taker
}

impl GState {
    /// Pool identifiers are unique and every pool satisfies its own
    /// invariant.
    pub open spec fn pools_wf(self) -> bool {
        &&& forall|i: int, j: int|
            0 <= i < j < self.pools.len() ==> (#[trigger] self.pools[i]).id != (
            #[trigger] self.pools[j]).id
        &&& forall|i: int| 0 <= i < self.pools.len() ==> (#[trigger] self.pools[i]).wf()
    }

    /// Share-token records are keyed uniquely by pool.
    pub open spec fn pool_tokens_wf(self) -> bool {
        forall|i: int, j: int|
            0 <= i < j < self.pool_tokens.len() ==> (#[trigger] self.pool_tokens[i]).pool_id != (
            #[trigger] self.pool_tokens[j]).pool_id
    }

    /// Orders are keyed uniquely by (pool, order id).
    pub open spec fn orders_wf(self) -> bool {
        forall|i: int, j: int|
            0 <= i < j < self.orders.len() ==> !((#[trigger] self.orders[i]).pool_id == (
            #[trigger] self.orders[j]).pool_id && self.orders[i].id == self.orders[j].id)
    }

    /// The active-order index is a faithful image of the pending orders:
    /// triples are unique, every entry stands for an existing pending order
    /// of that maker, pool and taker, and every pending order has its
    /// entry.
    pub open spec fn index_wf(self) -> bool {
        &&& forall|i: int, j: int|
            0 <= i < j < self.active_orders.len() ==> !((
            #[trigger] self.active_orders[i]).source_maker == (
            #[trigger] self.active_orders[j]).source_maker && self.active_orders[i].pool_id
                == self.active_orders[j].pool_id && self.active_orders[i].destination_taker
                == self.active_orders[j].destination_taker)
        &&& forall|i: int|
            0 <= i < self.active_orders.len() ==> {
                let a = #[trigger] self.active_orders[i];
                &&& has_order(self.orders, a.pool_id, a.order_id)
                &&& {
                    let o = self.orders[order_idx(self.orders, a.pool_id, a.order_id)];
                    &&& o.status == OrderStatus::Pending
                    &&& o.source_maker == a.source_maker
                    &&& o.destination_taker == a.destination_taker
                }
            }
        &&& forall|i: int|
            0 <= i < self.orders.len() && (#[trigger] self.orders[i]).status
                == OrderStatus::Pending ==> {
                let o = self.orders[i];
                &&& has_active(self.active_orders, o.source_maker, o.pool_id, o.destination_taker)
                &&& self.active_orders[active_idx(
                    self.active_orders,
                    o.source_maker,
                    o.pool_id,
                    o.destination_taker,
                )].order_id == o.id
            }
    }

    /// The order-id generator bounds every stored order id, so a fresh
    /// counter value can never collide with an existing order.
    pub open spec fn counter_wf(self) -> bool {
        forall|i: int|
            0 <= i < self.orders.len() ==> (#[trigger] self.orders[i]).id
                <= self.config.counter as int
    }

    /// The whole state invariant.
    pub open spec fn wf(self) -> bool {
        &&& self.pools_wf()
        &&& self.pool_tokens_wf()
        &&& self.orders_wf()
        &&& self.index_wf()
    }
}

/// With unique pool identifiers, any index carrying an identifier is the
/// index the lookup denotes.
pub proof fn lemma_pool_idx_is(pools: Seq<GPool>, id: Seq<char>, i: int)
    requires
        0 <= i < pools.len(),
        pools[i].id == id,
        forall|k: int, j: int|
            0 <= k < j < pools.len() ==> (#[trigger] pools[k]).id != (#[trigger] pools[j]).id,
    ensures
        has_pool(pools, id),
        pool_idx(pools, id) == i,
{
    assert(has_pool(pools, id));
    let w = pool_idx(pools, id);
    if w < i {
        assert((pools[w]).id != (pools[i]).id);
    }
    if i < w {
        assert((pools[i]).id != (pools[w]).id);
    }
}

/// With unique pool keys, any index carrying a pool's share-token record is
/// the index the lookup denotes.
pub proof fn lemma_pool_token_idx_is(tokens: Seq<GPoolToken>, pool_id: Seq<char>, i: int)
    requires
        0 <= i < tokens.len(),
        tokens[i].pool_id == pool_id,
        forall|k: int, j: int|
            0 <= k < j < tokens.len() ==> (#[trigger] tokens[k]).pool_id != (
            #[trigger] tokens[j]).pool_id,
    ensures
        has_pool_token(tokens, pool_id),
        pool_token_idx(tokens, pool_id) == i,
{
    assert(has_pool_token(tokens, pool_id));
    let w = pool_token_idx(tokens, pool_id);
    if w < i {
        assert((tokens[w]).pool_id != (tokens[i]).pool_id);
    }
    if i < w {
        assert((tokens[i]).pool_id != (tokens[w]).pool_id);
    }
}

/// With unique order keys, any index carrying a key is the index the lookup
/// denotes.
pub proof fn lemma_order_idx_is(orders: Seq<GOrder>, pool_id: Seq<char>, order_id: int, i: int)
    requires
        0 <= i < orders.len(),
        orders[i].pool_id == pool_id,
        orders[i].id == order_id,
        forall|k: int, j: int|
            0 <= k < j < orders.len() ==> !((#[trigger] orders[k]).pool_id == (
            #[trigger] orders[j]).pool_id && orders[k].id == orders[j].id),
    ensures
        has_order(orders, pool_id, order_id),
        order_idx(orders, pool_id, order_id) == i,
{
    assert(has_order(orders, pool_id, order_id));
    let w = order_idx(orders, pool_id, order_id);
    if w < i {
        assert(!((orders[w]).pool_id == (orders[i]).pool_id && orders[w].id == orders[i].id));
    }
    if i < w {
        assert(!((orders[i]).pool_id == (orders[w]).pool_id && orders[i].id == orders[w].id));
    }
}

/// With unique triples, any index carrying a triple is the index the lookup
/// denotes.
pub proof fn lemma_active_idx_is(
    actives: Seq<GActive>,
    maker: Seq<char>,
    pool_id: Seq<char>,
    taker: Seq<char>,
    i: int,
)
    requires
        0 <= i < actives.len(),
        actives[i].source_maker == maker,
        actives[i].pool_id == pool_id,
        actives[i].destination_taker == taker,
        forall|k: int, j: int|
            0 <= k < j < actives.len() ==> !((#[trigger] actives[k]).source_maker == (
            #[trigger] actives[j]).source_maker && actives[k].pool_id == actives[j].pool_id
                && actives[k].destination_taker == actives[j].destination_taker),
    ensures
        has_active(actives, maker, pool_id, taker),
        active_idx(actives, maker, pool_id, taker) == i,
{
    assert(has_active(actives, maker, pool_id, taker));
    let w = active_idx(actives, maker, pool_id, taker);
    if w < i {
        assert(!((actives[w]).source_maker == (actives[i]).source_maker && actives[w].pool_id
            == actives[i].pool_id && actives[w].destination_taker
            == actives[i].destination_taker));
    }
    if i < w {
        assert(!((actives[i]).source_maker == (actives[w]).source_maker && actives[i].pool_id
            == actives[w].pool_id && actives[i].destination_taker
            == actives[w].destination_taker));
    }
}

impl ContractState {
    /// Fresh state with an empty store and the order counter at zero.
    pub fn initialize(token_code_id: u64) -> (s: ContractState)
        ensures
            s@.wf(),
            s@.config == (Config { counter: 0, token_code_id }),
            s@.pools.len() == 0,
            s@.pool_tokens.len() == 0,
            s@.orders.len() == 0,
            s@.active_orders.len() == 0,
            s@.temp is None,
    {
        ContractState {
            config: Config { counter: 0, token_code_id },
            pools: Vec::new(),
            pool_tokens: Vec::new(),
            orders: Vec::new(),
            active_orders: Vec::new(),
            temp: None,
        }
    }

    /// Position of the pool with the identifier, if present.
    pub fn find_pool_index(&self, id: &String) -> (r: Option<usize>)
        ensures
            match r {
                Some(i) => i < self@.pools.len() && self@.pools[i as int].id == id@ && has_pool(
                    self@.pools,
                    id@,
                ),
                None => !has_pool(self@.pools, id@),
            },
    {
        let n: usize = self.pools.len();
        let mut i: usize = 0;
        while i < n
            invariant
                n == self.pools.len(),
                i <= n,
                forall|k: int| 0 <= k < i ==> (#[trigger] self@.pools[k]).id != id@,
            decreases n - i,
        {
            if self.pools[i].id == *id {
                proof {
                    let ghost ii = i as int;
                    assert((self@.pools[ii]).id == id@);
                }
                return Some(i);
            }
            i = i + 1;
        }
        proof {
            assert(!has_pool(self@.pools, id@)) by {
                if has_pool(self@.pools, id@) {
                    let j = choose|j: int|
                        0 <= j < self@.pools.len() && (#[trigger] self@.pools[j]).id == id@;
                    assert((self@.pools[j]).id != id@);
                }
            }
        }
        None
    }

    /// Position of the share-token record of the pool, if present.
    pub fn find_pool_token_index(&self, pool_id: &String) -> (r: Option<usize>)
        ensures
            match r {
                Some(i) => i < self@.pool_tokens.len() && self@.pool_tokens[i as int].pool_id
                    == pool_id@ && has_pool_token(self@.pool_tokens, pool_id@),
                None => !has_pool_token(self@.pool_tokens, pool_id@),
            },
    {
        let n: usize = self.pool_tokens.len();
        let mut i: usize = 0;
        while i < n
            invariant
                n == self.pool_tokens.len(),
                i <= n,
                forall|k: int| 0 <= k < i ==> (#[trigger] self@.pool_tokens[k]).pool_id != pool_id@,
            decreases n - i,
        {
            if self.pool_tokens[i].pool_id == *pool_id {
                proof {
                    let ghost ii = i as int;
                    assert((self@.pool_tokens[ii]).pool_id == pool_id@);
                }
                return Some(i);
            }
            i = i + 1;
        }
        proof {
            assert(!has_pool_token(self@.pool_tokens, pool_id@)) by {
                if has_pool_token(self@.pool_tokens, pool_id@) {
                    let j = choose|j: int|
                        0 <= j < self@.pool_tokens.len() && (#[trigger] self@.pool_tokens[j]).pool_id
                            == pool_id@;
                    assert((self@.pool_tokens[j]).pool_id != pool_id@);
                }
            }
        }
        None
    }

    /// Position of the order with the (pool, order) key, if present.
    pub fn find_order_index(&self, pool_id: &String, order_id: u64) -> (r: Option<usize>)
        ensures
            match r {
                Some(i) => i < self@.orders.len() && self@.orders[i as int].pool_id == pool_id@
                    && self@.orders[i as int].id == order_id && has_order(
                    self@.orders,
                    pool_id@,
                    order_id as int,
                ),
                None => !has_order(self@.orders, pool_id@, order_id as int),
            },
    {
        let n: usize = self.orders.len();
        let mut i: usize = 0;
        while i < n
            invariant
                n == self.orders.len(),
                i <= n,
                forall|k: int|
                    0 <= k < i ==> !((#[trigger] self@.orders[k]).pool_id == pool_id@
                        && self@.orders[k].id == order_id),
            decreases n - i,
        {
            if self.orders[i].pool_id == *pool_id && self.orders[i].id == order_id {
                proof {
                    let ghost ii = i as int;
                    assert((self@.orders[ii]).pool_id == pool_id@ && self@.orders[ii].id
                        == order_id);
                }
                return Some(i);
            }
            i = i + 1;
        }
        proof {
            assert(!has_order(self@.orders, pool_id@, order_id as int)) by {
                if has_order(self@.orders, pool_id@, order_id as int) {
                    let j = choose|j: int|
                        0 <= j < self@.orders.len() && (#[trigger] self@.orders[j]).pool_id
                            == pool_id@ && self@.orders[j].id == order_id;
                    assert(!((self@.orders[j]).pool_id == pool_id@ && self@.orders[j].id
                        == order_id));
                }
            }
        }
        None
    }

    /// Position of the (maker, pool, taker) triple in the active-order
    /// index, if present.
    pub fn find_active_index(&self, maker: &String, pool_id: &String, taker: &String) -> (r: Option<
        usize,
    >)
        ensures
            match r {
                Some(i) => i < self@.active_orders.len() && self@.active_orders[i as int].source_maker
                    == maker@ && self@.active_orders[i as int].pool_id == pool_id@
                    && self@.active_orders[i as int].destination_taker == taker@ && has_active(
                    self@.active_orders,
                    maker@,
                    pool_id@,
                    taker@,
                ),
                None => !has_active(self@.active_orders, maker@, pool_id@, taker@),
            },
    {
        let n: usize = self.active_orders.len();
        let mut i: usize = 0;
        while i < n
            invariant
                n == self.active_orders.len(),
                i <= n,
                forall|k: int|
                    0 <= k < i ==> !((#[trigger] self@.active_orders[k]).source_maker == maker@
                        && self@.active_orders[k].pool_id == pool_id@
                        && self@.active_orders[k].destination_taker == taker@),
            decreases n - i,
        {
            if self.active_orders[i].source_maker == *maker && self.active_orders[i].pool_id
                == *pool_id && self.active_orders[i].destination_taker == *taker {
                proof {
                    let ghost ii = i as int;
                    assert((self@.active_orders[ii]).source_maker == maker@
                        && self@.active_orders[ii].pool_id == pool_id@
                        && self@.active_orders[ii].destination_taker == taker@);
                }
                return Some(i);
            }
            i = i + 1;
        }
        proof {
            assert(!has_active(self@.active_orders, maker@, pool_id@, taker@)) by {
                if has_active(self@.active_orders, maker@, pool_id@, taker@) {
                    let j = choose|j: int|
                        0 <= j < self@.active_orders.len() && (
                        #[trigger] self@.active_orders[j]).source_maker == maker@
                            && self@.active_orders[j].pool_id == pool_id@
                            && self@.active_orders[j].destination_taker == taker@;
                    assert(!((self@.active_orders[j]).source_maker == maker@
                        && self@.active_orders[j].pool_id == pool_id@
                        && self@.active_orders[j].destination_taker == taker@));
                }
            }
        }
        None
    }

    /// Stores a new pool under its fresh identifier.
    pub fn insert_pool(&mut self, pool: InterchainLiquidityPool)
        requires
            old(self)@.wf(),
            pool@.wf(),
            !has_pool(old(self)@.pools, pool@.id),
        ensures
            final(self)@ == (GState { pools: old(self)@.pools.push(pool@), ..old(self)@ }),
            final(self)@.wf(),
    {
        let ghost gp = pool@;
        let ghost oldpools = self@.pools;
        self.pools.push(pool);
        proof {
            assert(self@.pools =~= oldpools.push(gp));
            assert forall|i: int, j: int|
                0 <= i < j < self@.pools.len() implies (#[trigger] self@.pools[i]).id != (
            #[trigger] self@.pools[j]).id by {
                if j < oldpools.len() {
                    assert(self@.pools[i] == oldpools[i] && self@.pools[j] == oldpools[j]);
                } else {
                    assert(self@.pools[j] == gp);
                    assert(self@.pools[i] == oldpools[i]);
                    if oldpools[i].id == gp.id {
                        assert(has_pool(oldpools, gp.id));
                    }
                }
            }
            assert(final(self)@ == (GState { pools: oldpools.push(gp), ..old(self)@ }));
        }
    }

    /// Overwrites the pool at a position, keeping its identifier.
    pub fn set_pool_at(&mut self, i: usize, pool: InterchainLiquidityPool)
        requires
            old(self)@.wf(),
            i < old(self)@.pools.len(),
            pool@.wf(),
            pool@.id == old(self)@.pools[i as int].id,
        ensures
            final(self)@ == (GState {
                pools: old(self)@.pools.update(i as int, pool@),
                ..old(self)@
            }),
            final(self)@.wf(),
    {
        let ghost gp = pool@;
        let ghost oldpools = self@.pools;
        self.pools[i] = pool;
        proof {
            assert(self@.pools =~= oldpools.update(i as int, gp));
        }
    }

    /// Deletes the pool at a position.
    pub fn remove_pool_at(&mut self, i: usize)
        requires
            old(self)@.wf(),
            i < old(self)@.pools.len(),
        ensures
            final(self)@ == (GState { pools: old(self)@.pools.remove(i as int), ..old(self)@ }),
            final(self)@.wf(),
    {
        let ghost oldpools = self@.pools;
        self.pools.remove(i);
        proof {
            assert(self@.pools =~= oldpools.remove(i as int));
            assert forall|a: int, b: int|
                0 <= a < b < self@.pools.len() implies (#[trigger] self@.pools[a]).id != (
            #[trigger] self@.pools[b]).id by {
                let a0 = if a < i as int {
                    a
                } else {
                    a + 1
                };
                let b0 = if b < i as int {
                    b
                } else {
                    b + 1
                };
                assert(self@.pools[a] == oldpools[a0] && self@.pools[b] == oldpools[b0]);
                assert(oldpools[a0].id != oldpools[b0].id);
            }
            assert forall|a: int| 0 <= a < self@.pools.len() implies (
            #[trigger] self@.pools[a]).wf() by {
                let a0 = if a < i as int {
                    a
                } else {
                    a + 1
                };
                assert(self@.pools[a] == oldpools[a0]);
                assert(oldpools[a0].wf());
            }
        }
    }

    /// Records the share-token address of a pool.
    pub fn insert_pool_token(&mut self, pool_id: String, address: String)
        requires
            old(self)@.wf(),
            !has_pool_token(old(self)@.pool_tokens, pool_id@),
        ensures
            final(self)@ == (GState {
                pool_tokens: old(self)@.pool_tokens.push(
                    GPoolToken { pool_id: pool_id@, address: address@ },
                ),
                ..old(self)@
            }),
            final(self)@.wf(),
    {
        let ghost gt = GPoolToken { pool_id: pool_id@, address: address@ };
        let ghost oldtoks = self@.pool_tokens;
        self.pool_tokens.push(PoolToken { pool_id, address });
        proof {
            assert(self@.pool_tokens =~= oldtoks.push(gt));
            assert forall|i: int, j: int|
                0 <= i < j < self@.pool_tokens.len() implies (
            #[trigger] self@.pool_tokens[i]).pool_id != (
            #[trigger] self@.pool_tokens[j]).pool_id by {
                if j < oldtoks.len() {
                    assert(self@.pool_tokens[i] == oldtoks[i] && self@.pool_tokens[j]
                        == oldtoks[j]);
                } else {
                    assert(self@.pool_tokens[j] == gt);
                    assert(self@.pool_tokens[i] == oldtoks[i]);
                    if oldtoks[i].pool_id == gt.pool_id {
                        assert(has_pool_token(oldtoks, gt.pool_id));
                    }
                }
            }
        }
    }

    /// Deletes the share-token record at a position.
    pub fn remove_pool_token_at(&mut self, i: usize)
        requires
            old(self)@.wf(),
            i < old(self)@.pool_tokens.len(),
        ensures
            final(self)@ == (GState {
                pool_tokens: old(self)@.pool_tokens.remove(i as int),
                ..old(self)@
            }),
            final(self)@.wf(),
    {
        let ghost oldtoks = self@.pool_tokens;
        self.pool_tokens.remove(i);
        proof {
            assert(self@.pool_tokens =~= oldtoks.remove(i as int));
            assert forall|a: int, b: int|
                0 <= a < b < self@.pool_tokens.len() implies (
            #[trigger] self@.pool_tokens[a]).pool_id != (
            #[trigger] self@.pool_tokens[b]).pool_id by {
                let a0 = if a < i as int {
                    a
                } else {
                    a + 1
                };
                let b0 = if b < i as int {
                    b
                } else {
                    b + 1
                };
                assert(self@.pool_tokens[a] == oldtoks[a0] && self@.pool_tokens[b]
                    == oldtoks[b0]);
                assert(oldtoks[a0].pool_id != oldtoks[b0].pool_id);
            }
        }
    }

    /// Stores a new pending order and its active-order index entry
    /// together.
    pub fn add_pending_order(&mut self, order: MultiAssetDepositOrder)
        requires
            old(self)@.wf(),
            order@.status == OrderStatus::Pending,
            !has_order(old(self)@.orders, order@.pool_id, order@.id),
            !has_active(
                old(self)@.active_orders,
                order@.source_maker,
                order@.pool_id,
                order@.destination_taker,
            ),
        ensures
            final(self)@ == (GState {
                orders: old(self)@.orders.push(order@),
                active_orders: old(self)@.active_orders.push(
                    GActive {
                        source_maker: order@.source_maker,
                        pool_id: order@.pool_id,
                        destination_taker: order@.destination_taker,
                        order_id: order@.id,
                    },
                ),
                ..old(self)@
            }),
            final(self)@.wf(),
    {
        let ghost go = order@;
        let ghost ga = GActive {
            source_maker: go.source_maker,
            pool_id: go.pool_id,
            destination_taker: go.destination_taker,
            order_id: go.id,
        };
        let ghost oldo = self@.orders;
        let ghost olda = self@.active_orders;
        let key = ActiveOrderKey {
            source_maker: order.source_maker.clone(),
            pool_id: order.pool_id.clone(),
            destination_taker: order.destination_taker.clone(),
            order_id: order.id,
        };
        self.orders.push(order);
        self.active_orders.push(key);
        proof {
            let newo = self@.orders;
            let newa = self@.active_orders;
            assert(newo =~= oldo.push(go));
            assert(newa =~= olda.push(ga));
            // Order keys stay unique: the new key is fresh.
            assert forall|i: int, j: int|
                0 <= i < j < newo.len() implies !((#[trigger] newo[i]).pool_id == (
            #[trigger] newo[j]).pool_id && newo[i].id == newo[j].id) by {
                if j < oldo.len() {
                    assert(newo[i] == oldo[i] && newo[j] == oldo[j]);
                } else {
                    assert(newo[j] == go && newo[i] == oldo[i]);
                    if oldo[i].pool_id == go.pool_id && oldo[i].id == go.id {
                        assert(has_order(oldo, go.pool_id, go.id));
                    }
                }
            }
            // Triples stay unique: the new triple is fresh.
            assert forall|i: int, j: int|
                0 <= i < j < newa.len() implies !((#[trigger] newa[i]).source_maker == (
            #[trigger] newa[j]).source_maker && newa[i].pool_id == newa[j].pool_id
                && newa[i].destination_taker == newa[j].destination_taker) by {
                if j < olda.len() {
                    assert(newa[i] == olda[i] && newa[j] == olda[j]);
                } else {
                    assert(newa[j] == ga && newa[i] == olda[i]);
                    if olda[i].source_maker == ga.source_maker && olda[i].pool_id == ga.pool_id
                        && olda[i].destination_taker == ga.destination_taker {
                        assert(has_active(olda, ga.source_maker, ga.pool_id,
                            ga.destination_taker));
                    }
                }
            }
            // Every index entry still stands for a pending order.
            assert forall|i: int| 0 <= i < newa.len() implies {
                let a = #[trigger] newa[i];
                &&& has_order(newo, a.pool_id, a.order_id)
                &&& {
                    let o = newo[order_idx(newo, a.pool_id, a.order_id)];
                    &&& o.status == OrderStatus::Pending
                    &&& o.source_maker == a.source_maker
                    &&& o.destination_taker == a.destination_taker
                }
            } by {
                if i < olda.len() {
                    let a = olda[i];
                    assert(newa[i] == a);
                    assert(has_order(oldo, a.pool_id, a.order_id));
                    let j0 = order_idx(oldo, a.pool_id, a.order_id);
                    assert(0 <= j0 < oldo.len() && oldo[j0].pool_id == a.pool_id && oldo[j0].id
                        == a.order_id);
                    assert(newo[j0] == oldo[j0]);
                    lemma_order_idx_is(newo, a.pool_id, a.order_id, j0);
                } else {
                    assert(newa[i] == ga);
                    assert(newo[oldo.len() as int] == go);
                    lemma_order_idx_is(newo, go.pool_id, go.id, oldo.len() as int);
                }
            }
            // Every pending order still has its index entry.
            assert forall|i: int|
                0 <= i < newo.len() && (#[trigger] newo[i]).status
                    == OrderStatus::Pending implies {
                let o = newo[i];
                &&& has_active(newa, o.source_maker, o.pool_id, o.destination_taker)
                &&& newa[active_idx(
                    newa,
                    o.source_maker,
                    o.pool_id,
                    o.destination_taker,
                )].order_id == o.id
            } by {
                if i < oldo.len() {
                    let o = oldo[i];
                    assert(newo[i] == o);
                    assert(has_active(olda, o.source_maker, o.pool_id, o.destination_taker));
                    let k0 = active_idx(olda, o.source_maker, o.pool_id, o.destination_taker);
                    assert(0 <= k0 < olda.len() && olda[k0].source_maker == o.source_maker
                        && olda[k0].pool_id == o.pool_id && olda[k0].destination_taker
                        == o.destination_taker);
                    assert(newa[k0] == olda[k0]);
                    lemma_active_idx_is(
                        newa,
                        o.source_maker,
                        o.pool_id,
                        o.destination_taker,
                        k0,
                    );
                } else {
                    assert(newo[i] == go);
                    assert(newa[olda.len() as int] == ga);
                    lemma_active_idx_is(
                        newa,
                        go.source_maker,
                        go.pool_id,
                        go.destination_taker,
                        olda.len() as int,
                    );
                }
            }
        }
    }

    /// Moves the pending order at a position to a terminal status and
    /// removes its active-order index entry, as every terminal transition
    /// must.
    pub fn finish_order_at(&mut self, i: usize, cancelled: bool)
        requires
            old(self)@.wf(),
            i < old(self)@.orders.len(),
            old(self)@.orders[i as int].status == OrderStatus::Pending,
        ensures
            ({
                let o = old(self)@.orders[i as int];
                let st = if cancelled {
                    OrderStatus::Cancelled
                } else {
                    OrderStatus::Complete
                };
                final(self)@ == (GState {
                    orders: old(self)@.orders.update(i as int, GOrder { status: st, ..o }),
                    active_orders: old(self)@.active_orders.remove(
                        active_idx(
                            old(self)@.active_orders,
                            o.source_maker,
                            o.pool_id,
                            o.destination_taker,
                        ),
                    ),
                    ..old(self)@
                })
            }),
            final(self)@.wf(),
    {
        let ghost oldo = self@.orders;
        let ghost olda = self@.active_orders;
        let ghost go = oldo[i as int];
        let maker = self.orders[i].source_maker.clone();
        let pool_id = self.orders[i].pool_id.clone();
        let taker = self.orders[i].destination_taker.clone();
        proof {
            assert(has_active(olda, go.source_maker, go.pool_id, go.destination_taker));
        }
        let k: usize = match self.find_active_index(&maker, &pool_id, &taker) {
            Some(k) => k,
            None => {
                proof {
                    assert(false);
                }
                0
            },
        };
        proof {
            lemma_active_idx_is(olda, go.source_maker, go.pool_id, go.destination_taker, k as int);
        }
        self.active_orders.remove(k);
        if cancelled {
            self.orders[i].status = OrderStatus::Cancelled;
        } else {
            self.orders[i].status = OrderStatus::Complete;
        }
        proof {
            let st = if cancelled {
                OrderStatus::Cancelled
            } else {
                OrderStatus::Complete
            };
            let newo = self@.orders;
            let newa = self@.active_orders;
            assert(newo =~= oldo.update(i as int, GOrder { status: st, ..go }));
            assert(newa =~= olda.remove(k as int));
            lemma_index_after_finish(oldo, olda, newo, newa, i as int, k as int, st);
            assert(final(self)@ == (GState {
                orders: oldo.update(i as int, GOrder { status: st, ..go }),
                active_orders: olda.remove(
                    active_idx(olda, go.source_maker, go.pool_id, go.destination_taker),
                ),
                ..old(self)@
            }));
        }
    }

    /// Deletes the pending order at a position outright, together with its
    /// active-order index entry.
    pub fn remove_pending_order_at(&mut self, i: usize)
        requires
            old(self)@.wf(),
            i < old(self)@.orders.len(),
            old(self)@.orders[i as int].status == OrderStatus::Pending,
        ensures
            ({
                let o = old(self)@.orders[i as int];
                final(self)@ == (GState {
                    orders: old(self)@.orders.remove(i as int),
                    active_orders: old(self)@.active_orders.remove(
                        active_idx(
                            old(self)@.active_orders,
                            o.source_maker,
                            o.pool_id,
                            o.destination_taker,
                        ),
                    ),
                    ..old(self)@
                })
            }),
            final(self)@.wf(),
    {
        let ghost oldo = self@.orders;
        let ghost olda = self@.active_orders;
        let ghost go = oldo[i as int];
        let maker = self.orders[i].source_maker.clone();
        let pool_id = self.orders[i].pool_id.clone();
        let taker = self.orders[i].destination_taker.clone();
        proof {
            assert(has_active(olda, go.source_maker, go.pool_id, go.destination_taker));
        }
        let k: usize = match self.find_active_index(&maker, &pool_id, &taker) {
            Some(k) => k,
            None => {
                proof {
                    assert(false);
                }
                0
            },
        };
        proof {
            lemma_active_idx_is(olda, go.source_maker, go.pool_id, go.destination_taker, k as int);
        }
        self.active_orders.remove(k);
        self.orders.remove(i);
        proof {
            let newo = self@.orders;
            let newa = self@.active_orders;
            assert(newo =~= oldo.remove(i as int));
            assert(newa =~= olda.remove(k as int));
            lemma_index_after_removal(oldo, olda, newo, newa, i as int, k as int);
        }
    }
}

/// After a terminal transition of order `i` and removal of its index entry
/// `k`, the state invariant holds again.
proof fn lemma_index_after_finish(
    oldo: Seq<GOrder>,
    olda: Seq<GActive>,
    newo: Seq<GOrder>,
    newa: Seq<GActive>,
    i: int,
    k: int,
    st: OrderStatus,
)
    requires
        0 <= i < oldo.len(),
        0 <= k < olda.len(),
        oldo[i].status == OrderStatus::Pending,
        st != OrderStatus::Pending,
        olda[k].source_maker == oldo[i].source_maker,
        olda[k].pool_id == oldo[i].pool_id,
        olda[k].destination_taker == oldo[i].destination_taker,
        newo == oldo.update(i, GOrder { status: st, ..oldo[i] }),
        newa == olda.remove(k),
        forall|a: int, b: int|
            0 <= a < b < oldo.len() ==> !((#[trigger] oldo[a]).pool_id == (
            #[trigger] oldo[b]).pool_id && oldo[a].id == oldo[b].id),
        forall|a: int, b: int|
            0 <= a < b < olda.len() ==> !((#[trigger] olda[a]).source_maker == (
            #[trigger] olda[b]).source_maker && olda[a].pool_id == olda[b].pool_id
                && olda[a].destination_taker == olda[b].destination_taker),
        forall|a: int|
            0 <= a < olda.len() ==> {
                let e = #[trigger] olda[a];
                &&& has_order(oldo, e.pool_id, e.order_id)
                &&& {
                    let o = oldo[order_idx(oldo, e.pool_id, e.order_id)];
                    &&& o.status == OrderStatus::Pending
                    &&& o.source_maker == e.source_maker
                    &&& o.destination_taker == e.destination_taker
                }
            },
        forall|a: int|
            0 <= a < oldo.len() && (#[trigger] oldo[a]).status == OrderStatus::Pending ==> {
                let o = oldo[a];
                &&& has_active(olda, o.source_maker, o.pool_id, o.destination_taker)
                &&& olda[active_idx(
                    olda,
                    o.source_maker,
                    o.pool_id,
                    o.destination_taker,
                )].order_id == o.id
            },
    ensures
        forall|a: int, b: int|
            0 <= a < b < newo.len() ==> !((#[trigger] newo[a]).pool_id == (
            #[trigger] newo[b]).pool_id && newo[a].id == newo[b].id),
        forall|a: int, b: int|
            0 <= a < b < newa.len() ==> !((#[trigger] newa[a]).source_maker == (
            #[trigger] newa[b]).source_maker && newa[a].pool_id == newa[b].pool_id
                && newa[a].destination_taker == newa[b].destination_taker),
        forall|a: int|
            0 <= a < newa.len() ==> {
                let e = #[trigger] newa[a];
                &&& has_order(newo, e.pool_id, e.order_id)
                &&& {
                    let o = newo[order_idx(newo, e.pool_id, e.order_id)];
                    &&& o.status == OrderStatus::Pending
                    &&& o.source_maker == e.source_maker
                    &&& o.destination_taker == e.destination_taker
                }
            },
        forall|a: int|
            0 <= a < newo.len() && (#[trigger] newo[a]).status == OrderStatus::Pending ==> {
                let o = newo[a];
                &&& has_active(newa, o.source_maker, o.pool_id, o.destination_taker)
                &&& newa[active_idx(
                    newa,
                    o.source_maker,
                    o.pool_id,
                    o.destination_taker,
                )].order_id == o.id
            },
{
    // Order keys are untouched by a status update.
    assert forall|a: int, b: int|
        0 <= a < b < newo.len() implies !((#[trigger] newo[a]).pool_id == (
    #[trigger] newo[b]).pool_id && newo[a].id == newo[b].id) by {
        assert(newo[a].pool_id == oldo[a].pool_id && newo[a].id == oldo[a].id);
        assert(newo[b].pool_id == oldo[b].pool_id && newo[b].id == oldo[b].id);
    }
    // Triples of the surviving entries are a sub-multiset of the old ones.
    assert forall|a: int, b: int|
        0 <= a < b < newa.len() implies !((#[trigger] newa[a]).source_maker == (
    #[trigger] newa[b]).source_maker && newa[a].pool_id == newa[b].pool_id
        && newa[a].destination_taker == newa[b].destination_taker) by {
        let a0 = if a < k {
            a
        } else {
            a + 1
        };
        let b0 = if b < k {
            b
        } else {
            b + 1
        };
        assert(newa[a] == olda[a0] && newa[b] == olda[b0]);
        assert(!((olda[a0]).source_maker == (olda[b0]).source_maker && olda[a0].pool_id
            == olda[b0].pool_id && olda[a0].destination_taker == olda[b0].destination_taker));
    }
    // Each surviving entry still points at a pending order: its order is
    // not the finished one, because the finished order's entry was the one
    // removed.
    assert forall|a: int| 0 <= a < newa.len() implies {
        let e = #[trigger] newa[a];
        &&& has_order(newo, e.pool_id, e.order_id)
        &&& {
            let o = newo[order_idx(newo, e.pool_id, e.order_id)];
            &&& o.status == OrderStatus::Pending
            &&& o.source_maker == e.source_maker
            &&& o.destination_taker == e.destination_taker
        }
    } by {
        let a0 = if a < k {
            a
        } else {
            a + 1
        };
        let e = olda[a0];
        assert(newa[a] == e);
        assert(has_order(oldo, e.pool_id, e.order_id));
        let j0 = order_idx(oldo, e.pool_id, e.order_id);
        assert(0 <= j0 < oldo.len() && oldo[j0].pool_id == e.pool_id && oldo[j0].id
            == e.order_id);
        if j0 == i {
            // Then this entry's triple equals the removed entry's triple,
            // so it would be the removed entry itself.
            assert(e.source_maker == oldo[i].source_maker && e.pool_id == oldo[i].pool_id
                && e.destination_taker == oldo[i].destination_taker);
            if a0 < k {
                assert(!((olda[a0]).source_maker == (olda[k]).source_maker && olda[a0].pool_id
                    == olda[k].pool_id && olda[a0].destination_taker
                    == olda[k].destination_taker));
            }
            if k < a0 {
                assert(!((olda[k]).source_maker == (olda[a0]).source_maker && olda[k].pool_id
                    == olda[a0].pool_id && olda[k].destination_taker
                    == olda[a0].destination_taker));
            }
            assert(false);
        }
        assert(newo[j0] == oldo[j0]);
        lemma_order_idx_is(newo, e.pool_id, e.order_id, j0);
    }
    // Each order still pending kept its entry: only order `i` changed, and
    // only entry `k` — which belonged to order `i` — left the index.
    assert forall|a: int|
        0 <= a < newo.len() && (#[trigger] newo[a]).status == OrderStatus::Pending implies {
        let o = newo[a];
        &&& has_active(newa, o.source_maker, o.pool_id, o.destination_taker)
        &&& newa[active_idx(newa, o.source_maker, o.pool_id, o.destination_taker)].order_id
            == o.id
    } by {
        assert(a != i);
        let o = oldo[a];
        assert(newo[a] == o);
        assert(has_active(olda, o.source_maker, o.pool_id, o.destination_taker));
        let k0 = active_idx(olda, o.source_maker, o.pool_id, o.destination_taker);
        assert(0 <= k0 < olda.len() && olda[k0].source_maker == o.source_maker
            && olda[k0].pool_id == o.pool_id && olda[k0].destination_taker
            == o.destination_taker);
        if k0 == k {
            // The entry of order `a` would be the removed entry, whose
            // order id is that of order `i`; two distinct orders cannot
            // share a key.
            assert(olda[k].order_id == o.id);
            assert(olda[k].order_id == oldo[i].id) by {
                assert(has_order(oldo, olda[k].pool_id, olda[k].order_id));
                let j1 = order_idx(oldo, olda[k].pool_id, olda[k].order_id);
                lemma_order_idx_is(oldo, oldo[i].pool_id, oldo[i].id, i);
            }
            assert(o.pool_id == oldo[i].pool_id && o.id == oldo[i].id);
            if a < i {
                assert(!((oldo[a]).pool_id == (oldo[i]).pool_id && oldo[a].id == oldo[i].id));
            }
            if i < a {
                assert(!((oldo[i]).pool_id == (oldo[a]).pool_id && oldo[i].id == oldo[a].id));
            }
            assert(false);
        }
        let k1 = if k0 < k {
            k0
        } else {
            k0 - 1
        };
        assert(newa[k1] == olda[k0]);
        lemma_active_idx_is(newa, o.source_maker, o.pool_id, o.destination_taker, k1);
    }
}

/// After outright removal of pending order `i` and of its index entry `k`,
/// the state invariant holds again.
#[verifier::rlimit(60)]
proof fn lemma_index_after_removal(
    oldo: Seq<GOrder>,
    olda: Seq<GActive>,
    newo: Seq<GOrder>,
    newa: Seq<GActive>,
    i: int,
    k: int,
)
    requires
        0 <= i < oldo.len(),
        0 <= k < olda.len(),
        oldo[i].status == OrderStatus::Pending,
        olda[k].source_maker == oldo[i].source_maker,
        olda[k].pool_id == oldo[i].pool_id,
        olda[k].destination_taker == oldo[i].destination_taker,
        newo == oldo.remove(i),
        newa == olda.remove(k),
        forall|a: int, b: int|
            0 <= a < b < oldo.len() ==> !((#[trigger] oldo[a]).pool_id == (
            #[trigger] oldo[b]).pool_id && oldo[a].id == oldo[b].id),
        forall|a: int, b: int|
            0 <= a < b < olda.len() ==> !((#[trigger] olda[a]).source_maker == (
            #[trigger] olda[b]).source_maker && olda[a].pool_id == olda[b].pool_id
                && olda[a].destination_taker == olda[b].destination_taker),
        forall|a: int|
            0 <= a < olda.len() ==> {
                let e = #[trigger] olda[a];
                &&& has_order(oldo, e.pool_id, e.order_id)
                &&& {
                    let o = oldo[order_idx(oldo, e.pool_id, e.order_id)];
                    &&& o.status == OrderStatus::Pending
                    &&& o.source_maker == e.source_maker
                    &&& o.destination_taker == e.destination_taker
                }
            },
        forall|a: int|
            0 <= a < oldo.len() && (#[trigger] oldo[a]).status == OrderStatus::Pending ==> {
                let o = oldo[a];
                &&& has_active(olda, o.source_maker, o.pool_id, o.destination_taker)
                &&& olda[active_idx(
                    olda,
                    o.source_maker,
                    o.pool_id,
                    o.destination_taker,
                )].order_id == o.id
            },
    ensures
        forall|a: int, b: int|
            0 <= a < b < newo.len() ==> !((#[trigger] newo[a]).pool_id == (
            #[trigger] newo[b]).pool_id && newo[a].id == newo[b].id),
        forall|a: int, b: int|
            0 <= a < b < newa.len() ==> !((#[trigger] newa[a]).source_maker == (
            #[trigger] newa[b]).source_maker && newa[a].pool_id == newa[b].pool_id
                && newa[a].destination_taker == newa[b].destination_taker),
        forall|a: int|
            0 <= a < newa.len() ==> {
                let e = #[trigger] newa[a];
                &&& has_order(newo, e.pool_id, e.order_id)
                &&& {
                    let o = newo[order_idx(newo, e.pool_id, e.order_id)];
                    &&& o.status == OrderStatus::Pending
                    &&& o.source_maker == e.source_maker
                    &&& o.destination_taker == e.destination_taker
                }
            },
        forall|a: int|
            0 <= a < newo.len() && (#[trigger] newo[a]).status == OrderStatus::Pending ==> {
                let o = newo[a];
                &&& has_active(newa, o.source_maker, o.pool_id, o.destination_taker)
                &&& newa[active_idx(
                    newa,
                    o.source_maker,
                    o.pool_id,
                    o.destination_taker,
                )].order_id == o.id
            },
{
    assert forall|a: int, b: int|
        0 <= a < b < newo.len() implies !((#[trigger] newo[a]).pool_id == (
    #[trigger] newo[b]).pool_id && newo[a].id == newo[b].id) by {
        let a0 = if a < i {
            a
        } else {
            a + 1
        };
        let b0 = if b < i {
            b
        } else {
            b + 1
        };
        assert(newo[a] == oldo[a0] && newo[b] == oldo[b0]);
        assert(!((oldo[a0]).pool_id == (oldo[b0]).pool_id && oldo[a0].id == oldo[b0].id));
    }
    assert forall|a: int, b: int|
        0 <= a < b < newa.len() implies !((#[trigger] newa[a]).source_maker == (
    #[trigger] newa[b]).source_maker && newa[a].pool_id == newa[b].pool_id
        && newa[a].destination_taker == newa[b].destination_taker) by {
        let a0 = if a < k {
            a
        } else {
            a + 1
        };
        let b0 = if b < k {
            b
        } else {
            b + 1
        };
        assert(newa[a] == olda[a0] && newa[b] == olda[b0]);
        assert(!((olda[a0]).source_maker == (olda[b0]).source_maker && olda[a0].pool_id
            == olda[b0].pool_id && olda[a0].destination_taker == olda[b0].destination_taker));
    }
    assert forall|a: int| 0 <= a < newa.len() implies {
        let e = #[trigger] newa[a];
        &&& has_order(newo, e.pool_id, e.order_id)
        &&& {
            let o = newo[order_idx(newo, e.pool_id, e.order_id)];
            &&& o.status == OrderStatus::Pending
            &&& o.source_maker == e.source_maker
            &&& o.destination_taker == e.destination_taker
        }
    } by {
        let a0 = if a < k {
            a
        } else {
            a + 1
        };
        let e = olda[a0];
        assert(newa[a] == e);
        assert(has_order(oldo, e.pool_id, e.order_id));
        let j0 = order_idx(oldo, e.pool_id, e.order_id);
        assert(0 <= j0 < oldo.len() && oldo[j0].pool_id == e.pool_id && oldo[j0].id
            == e.order_id);
        if j0 == i {
            assert(e.source_maker == oldo[i].source_maker && e.pool_id == oldo[i].pool_id
                && e.destination_taker == oldo[i].destination_taker);
            if a0 < k {
                assert(!((olda[a0]).source_maker == (olda[k]).source_maker && olda[a0].pool_id
                    == olda[k].pool_id && olda[a0].destination_taker
                    == olda[k].destination_taker));
            }
            if k < a0 {
                assert(!((olda[k]).source_maker == (olda[a0]).source_maker && olda[k].pool_id
                    == olda[a0].pool_id && olda[k].destination_taker
                    == olda[a0].destination_taker));
            }
            assert(false);
        }
        let j1 = if j0 < i {
            j0
        } else {
            j0 - 1
        };
        assert(newo[j1] == oldo[j0]);
        lemma_order_idx_is(newo, e.pool_id, e.order_id, j1);
    }
    assert forall|a: int|
        0 <= a < newo.len() && (#[trigger] newo[a]).status == OrderStatus::Pending implies {
        let o = newo[a];
        &&& has_active(newa, o.source_maker, o.pool_id, o.destination_taker)
        &&& newa[active_idx(newa, o.source_maker, o.pool_id, o.destination_taker)].order_id
            == o.id
    } by {
        let a0 = if a < i {
            a
        } else {
            a + 1
        };
        let o = oldo[a0];
        assert(newo[a] == o);
        assert(a0 != i);
        assert(has_active(olda, o.source_maker, o.pool_id, o.destination_taker));
        let k0 = active_idx(olda, o.source_maker, o.pool_id, o.destination_taker);
        assert(0 <= k0 < olda.len() && olda[k0].source_maker == o.source_maker
            && olda[k0].pool_id == o.pool_id && olda[k0].destination_taker
            == o.destination_taker);
        if k0 == k {
            assert(olda[k].order_id == o.id);
            assert(olda[k].order_id == oldo[i].id) by {
                lemma_order_idx_is(oldo, oldo[i].pool_id, oldo[i].id, i);
            }
            assert(o.pool_id == oldo[i].pool_id && o.id == oldo[i].id);
            if a0 < i {
                assert(!((oldo[a0]).pool_id == (oldo[i]).pool_id && oldo[a0].id == oldo[i].id));
            }
            if i < a0 {
                assert(!((oldo[i]).pool_id == (oldo[a0]).pool_id && oldo[i].id == oldo[a0].id));
            }
            assert(false);
        }
        let k1 = if k0 < k {
            k0
        } else {
            k0 - 1
        };
        assert(newa[k1] == olda[k0]);
        lemma_active_idx_is(newa, o.source_maker, o.pool_id, o.destination_taker, k1);
    }
}

} // verus!
