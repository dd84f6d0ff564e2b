//! The liquidity-pool aggregate and the market maker over it.
//!
//! A pool holds weighted assets and an outstanding share supply; the market
//! maker is an ephemeral view over a pool snapshot that prices deposits,
//! withdrawals and swaps.  Contracts are stated over ghost views of the
//! types, with plain sequences for strings and integers for amounts.

use vstd::prelude::*;

verus! {

use crate::error::ContractError;
use crate::math::{
    SCALE, FEE_PRECISION, single_fee, single_base, single_minted, single_fits, sgcd, spow,
    calc_minted_shares_given_single_asset_in, cfi_amount, cfi_fits, sadjust,
};

/// Which chain of the pair contributed an asset.
#[allow(non_camel_case_types)]
#[derive(Clone, Copy, Debug, PartialEq, Eq, Structural)]
pub enum PoolSide {
    SOURCE,
    DESTINATION,
}

/// Pool lifecycle status; transitions are monotonic except for explicit
/// cancellation out of `Initialized`.
#[derive(Clone, Copy, Debug, PartialEq, Eq, Structural)]
pub enum PoolStatus {
    Initialized,
    Active,
    Cancelled,
}

/// A denominated token amount.
#[derive(Clone, Debug)]
pub struct Coin {
    pub denom: String,
    pub amount: u128,
}

/// Ghost image of a coin: the denomination as a character sequence and the
/// amount as an unbounded integer.
pub ghost struct GCoin {
    pub denom: Seq<char>,
    pub amount: int,
}

impl View for Coin {
    type V = GCoin;

    open spec fn view(&self) -> GCoin {
        GCoin { denom: self.denom@, amount: self.amount as int }
    }
}

impl Coin {
    /// Field-for-field copy.
    pub fn dup(&self) -> (c: Coin)
        ensures
            c@ == self@,
    {
        Coin { denom: self.denom.clone(), amount: self.amount }
    }
}

/// One weighted asset of a pool.
#[derive(Clone, Debug)]
pub struct PoolAsset {
    pub side: PoolSide,
    pub balance: Coin,
    pub weight: u32,
    pub decimal: u32,
}

/// Ghost image of a pool asset.
pub ghost struct GAsset {
    pub side: PoolSide,
    pub balance: GCoin,
    pub weight: int,
    pub decimal: int,
}

impl View for PoolAsset {
    type V = GAsset;

    open spec fn view(&self) -> GAsset {
        GAsset {
            side: self.side,
            balance: self.balance@,
            weight: self.weight as int,
            decimal: self.decimal as int,
        }
    }
}

impl PoolAsset {
    /// Field-for-field copy.
    pub fn dup(&self) -> (a: PoolAsset)
        ensures
            a@ == self@,
    {
        PoolAsset {
            side: self.side,
            balance: self.balance.dup(),
            weight: self.weight,
            decimal: self.decimal,
        }
    }
}

/// Sum of the weights of a sequence of assets.
pub open spec fn sum_weights(assets: Seq<GAsset>) -> int
    decreases assets.len(),
{
    if assets.len() == 0 {
        0
    } else {
        sum_weights(assets.drop_last()) + assets.last().weight
    }
}

/// Whether some asset carries the denomination.
pub open spec fn has_denom(assets: Seq<GAsset>, denom: Seq<char>) -> bool {
    exists|i: int| 0 <= i < assets.len() && #[trigger] assets[i].balance.denom == denom
}

/// Index of the asset carrying the denomination; meaningful only when
/// `has_denom` holds, unique once denominations are unique.
pub open spec fn denom_idx(assets: Seq<GAsset>, denom: Seq<char>) -> int {
    choose|i: int| 0 <= i < assets.len() && #[trigger] assets[i].balance.denom == denom
}

/// A two-sided liquidity pool mirrored across two chains.
#[derive(Clone, Debug)]
pub struct InterchainLiquidityPool {
    pub assets: Vec<PoolAsset>,
    pub counter_party_channel: String,
    pub counter_party_port: String,
    pub destination_chain_id: String,
    pub destination_creator: String,
    pub id: String,
    pub source_chain_id: String,
    pub source_creator: String,
    pub status: PoolStatus,
    pub supply: Coin,
    pub swap_fee: u32,
    pub pool_price: u64,
}

/// Ghost image of a pool.
pub ghost struct GPool {
    pub assets: Seq<GAsset>,
    pub counter_party_channel: Seq<char>,
    pub counter_party_port: Seq<char>,
    pub destination_chain_id: Seq<char>,
    pub destination_creator: Seq<char>,
    pub id: Seq<char>,
    pub source_chain_id: Seq<char>,
    pub source_creator: Seq<char>,
    pub status: PoolStatus,
    pub supply: GCoin,
    pub swap_fee: int,
    pub pool_price: int,
}

impl View for InterchainLiquidityPool {
    type V = GPool;

    open spec fn view(&self) -> GPool {
        GPool {
            assets: self.assets@.map_values(|a: PoolAsset| a@),
            counter_party_channel: self.counter_party_channel@,
            counter_party_port: self.counter_party_port@,
            destination_chain_id: self.destination_chain_id@,
            destination_creator: self.destination_creator@,
            id: self.id@,
            source_chain_id: self.source_chain_id@,
            source_creator: self.source_creator@,
            status: self.status,
            supply: self.supply@,
            swap_fee: self.swap_fee as int,
            pool_price: self.pool_price as int,
        }
    }
}

impl GPool {
    /// Denominations are pairwise distinct within the pool.
    pub open spec fn denoms_unique(self) -> bool {
        forall|i: int, j: int|
            0 <= i < j < self.assets.len() ==> #[trigger] self.assets[i].balance.denom
                != #[trigger] self.assets[j].balance.denom
    }

    /// Pool invariant: distinct denominations, weights summing to one
    /// hundred percent, a fee within the basis-point range, and a share
    /// token denominated by the pool's own identifier.
    pub open spec fn wf(self) -> bool {
        &&& self.denoms_unique()
        &&& sum_weights(self.assets) == 100
        &&& forall|i: int| 0 <= i < self.assets.len() ==> 0 <= #[trigger] self.assets[i].weight
            <= 100
        &&& self.swap_fee <= FEE_PRECISION
        &&& self.supply.denom == self.id
    }
}

/// Updating one balance amount leaves the weight sum unchanged.
///
/// Every pool mutation changes at most a balance amount or the supply, so
/// the hundred-percent weight split is invariant across all of them.
pub proof fn law_weight_sum_preserved(before: Seq<GAsset>, after: Seq<GAsset>, i: int, amt: int)
    requires
        0 <= i < before.len(),
        after == before.update(
            i,
            GAsset { balance: GCoin { denom: before[i].balance.denom, amount: amt }, ..before[i] },
        ),
    ensures
        sum_weights(after) == sum_weights(before),
    decreases before.len(),
{
    if before.len() > 0 {
        if i == before.len() - 1 {
            assert(after.drop_last() =~= before.drop_last());
        } else {
            assert(after.drop_last() =~= before.drop_last().update(
                i,
                GAsset {
                    balance: GCoin { denom: before[i].balance.denom, amount: amt },
                    ..before[i]
                },
            ));
            law_weight_sum_preserved(before.drop_last(), after.drop_last(), i, amt);
            assert(after.last() == before.last());
        }
    }
}

/// The unique index carrying a denomination, as located by a scan.
proof fn lemma_denom_idx_is(assets: Seq<GAsset>, denom: Seq<char>, i: int)
    requires
        0 <= i < assets.len(),
        assets[i].balance.denom == denom,
        forall|k: int, j: int|
            0 <= k < j < assets.len() ==> #[trigger] assets[k].balance.denom
                != #[trigger] assets[j].balance.denom,
    ensures
        has_denom(assets, denom),
        denom_idx(assets, denom) == i,
{
    assert(has_denom(assets, denom));
    let w = denom_idx(assets, denom);
    if w < i {
        assert(assets[w].balance.denom != assets[i].balance.denom);
    }
    if i < w {
        assert(assets[i].balance.denom != assets[w].balance.denom);
    }
}

impl InterchainLiquidityPool {
    /// Deep copy of the pool.
    pub fn dup(&self) -> (p: InterchainLiquidityPool)
        ensures
            p@ == self@,
    {
        let mut assets: Vec<PoolAsset> = Vec::new();
        let mut i: usize = 0;
        while i < self.assets.len()
            invariant
                i <= self.assets.len(),
                assets@.len() == i,
                forall|k: int| 0 <= k < i ==> #[trigger] assets@[k]@ == self.assets@[k]@,
            decreases self.assets.len() - i,
        {
            assets.push(self.assets[i].dup());
            i = i + 1;
        }
        let p = InterchainLiquidityPool {
            assets,
            counter_party_channel: self.counter_party_channel.clone(),
            counter_party_port: self.counter_party_port.clone(),
            destination_chain_id: self.destination_chain_id.clone(),
            destination_creator: self.destination_creator.clone(),
            id: self.id.clone(),
            source_chain_id: self.source_chain_id.clone(),
            source_creator: self.source_creator.clone(),
            status: self.status,
            supply: self.supply.dup(),
            swap_fee: self.swap_fee,
            pool_price: self.pool_price,
        };
        proof {
            assert(p@.assets =~= self@.assets);
        }
        p
    }

    /// Copy of the asset carrying the denomination.
    pub fn find_asset_by_denom(&self, denom: &String) -> (r: Result<PoolAsset, ContractError>)
        requires
            self@.denoms_unique(),
        ensures
            r is Ok <==> has_denom(self@.assets, denom@),
            r matches Ok(a) ==> a@ == self@.assets[denom_idx(self@.assets, denom@)],
            r is Err ==> r == Err::<PoolAsset, ContractError>(ContractError::DenomNotFound),
    {
        let n: usize = self.assets.len();
        let mut i: usize = 0;
        while i < n
            invariant
                n == self.assets.len(),
                i <= n,
                self@.denoms_unique(),
                forall|k: int| 0 <= k < i ==> #[trigger] self@.assets[k].balance.denom != denom@,
            decreases n - i,
        {
            if self.assets[i].balance.denom == *denom {
                proof {
                    lemma_denom_idx_is(self@.assets, denom@, i as int);
                }
                return Ok(self.assets[i].dup());
            }
            i = i + 1;
        }
        proof {
            assert(forall|k: int|
                0 <= k < self@.assets.len() ==> #[trigger] self@.assets[k].balance.denom
                    != denom@);
        }
        Err(ContractError::DenomNotFound)
    }

    /// Copy of the first asset sitting on the given side.
    pub fn find_asset_by_side(&self, side: PoolSide) -> (r: Result<PoolAsset, ContractError>)
        ensures
            r matches Ok(a) ==> exists|i: int|
                0 <= i < self@.assets.len() && (#[trigger] self@.assets[i]).side == side && a@
                    == self@.assets[i] && (forall|j: int|
                    0 <= j < i ==> (#[trigger] self@.assets[j]).side != side),
            r is Err <==> forall|i: int|
                0 <= i < self@.assets.len() ==> (#[trigger] self@.assets[i]).side != side,
            r is Err ==> r == Err::<PoolAsset, ContractError>(ContractError::AssetSideNotFound),
    {
        let n: usize = self.assets.len();
        let mut i: usize = 0;
        while i < n
            invariant
                n == self.assets.len(),
                i <= n,
                forall|k: int| 0 <= k < i ==> (#[trigger] self@.assets[k]).side != side,
            decreases n - i,
        {
            if self.assets[i].side == side {
                let a = self.assets[i].dup();
                proof {
                    let ghost ii: int = i as int;
                    assert(self@.assets[ii].side == side && a@ == self@.assets[ii] && (forall|
                        j: int,
                    |
                        0 <= j < ii ==> (#[trigger] self@.assets[j]).side != side));
                }
                return Ok(a);
            }
            i = i + 1;
        }
        Err(ContractError::AssetSideNotFound)
    }

    /// Adds the coin to the matching asset balance.
    pub fn add_asset(&mut self, token: Coin) -> (r: Result<Coin, ContractError>)
        requires
            old(self)@.denoms_unique(),
        ensures
            r is Ok <==> has_denom(old(self)@.assets, token@.denom) && old(self)@.assets[denom_idx(
                old(self)@.assets,
                token@.denom,
            )].balance.amount + token@.amount <= u128::MAX,
            r matches Ok(c) ==> c@ == token@ && final(self)@ == (GPool {
                assets: old(self)@.assets.update(
                    denom_idx(old(self)@.assets, token@.denom),
                    GAsset {
                        balance: GCoin {
                            denom: token@.denom,
                            amount: old(self)@.assets[denom_idx(
                                old(self)@.assets,
                                token@.denom,
                            )].balance.amount + token@.amount,
                        },
                        ..old(self)@.assets[denom_idx(old(self)@.assets, token@.denom)]
                    },
                ),
                ..old(self)@
            }),
            r is Err ==> final(self)@ == old(self)@,
            !has_denom(old(self)@.assets, token@.denom) ==> r == Err::<Coin, ContractError>(
                ContractError::DenomNotFound,
            ),
            has_denom(old(self)@.assets, token@.denom) && r is Err ==> r == Err::<
                Coin,
                ContractError,
            >(ContractError::Overflow),
    {
        let n: usize = self.assets.len();
        let mut i: usize = 0;
        while i < n
            invariant
                n == self.assets.len(),
                i <= n,
                old(self)@.denoms_unique(),
                self@ == old(self)@,
                forall|k: int|
                    0 <= k < i ==> #[trigger] self@.assets[k].balance.denom != token@.denom,
            decreases n - i,
        {
            if self.assets[i].balance.denom == token.denom {
                proof {
                    lemma_denom_idx_is(self@.assets, token@.denom, i as int);
                }
                let bal: u128 = self.assets[i].balance.amount;
                if token.amount > u128::MAX - bal {
                    return Err(ContractError::Overflow);
                }
                let ghost before = self@;
                self.assets[i].balance.amount = bal + token.amount;
                proof {
                    assert(self@.assets =~= before.assets.update(
                        i as int,
                        GAsset {
                            balance: GCoin {
                                denom: token@.denom,
                                amount: before.assets[i as int].balance.amount + token@.amount,
                            },
                            ..before.assets[i as int]
                        },
                    ));
                }
                return Ok(token);
            }
            i = i + 1;
        }
        Err(ContractError::DenomNotFound)
    }

    /// Subtracts the coin from the matching asset balance.
    pub fn subtract_asset(&mut self, token: Coin) -> (r: Result<Coin, ContractError>)
        requires
            old(self)@.denoms_unique(),
        ensures
            r is Ok <==> has_denom(old(self)@.assets, token@.denom) && old(self)@.assets[denom_idx(
                old(self)@.assets,
                token@.denom,
            )].balance.amount >= token@.amount,
            r matches Ok(c) ==> c@ == token@ && final(self)@ == (GPool {
                assets: old(self)@.assets.update(
                    denom_idx(old(self)@.assets, token@.denom),
                    GAsset {
                        balance: GCoin {
                            denom: token@.denom,
                            amount: old(self)@.assets[denom_idx(
                                old(self)@.assets,
                                token@.denom,
                            )].balance.amount - token@.amount,
                        },
                        ..old(self)@.assets[denom_idx(old(self)@.assets, token@.denom)]
                    },
                ),
                ..old(self)@
            }),
            r is Err ==> final(self)@ == old(self)@,
            !has_denom(old(self)@.assets, token@.denom) ==> r == Err::<Coin, ContractError>(
                ContractError::DenomNotFound,
            ),
            has_denom(old(self)@.assets, token@.denom) && r is Err ==> r == Err::<
                Coin,
                ContractError,
            >(ContractError::InsufficientBalance),
    {
        let n: usize = self.assets.len();
        let mut i: usize = 0;
        while i < n
            invariant
                n == self.assets.len(),
                i <= n,
                old(self)@.denoms_unique(),
                self@ == old(self)@,
                forall|k: int|
                    0 <= k < i ==> #[trigger] self@.assets[k].balance.denom != token@.denom,
            decreases n - i,
        {
            if self.assets[i].balance.denom == token.denom {
                proof {
                    lemma_denom_idx_is(self@.assets, token@.denom, i as int);
                }
                let bal: u128 = self.assets[i].balance.amount;
                if token.amount > bal {
                    return Err(ContractError::InsufficientBalance);
                }
                let ghost before = self@;
                self.assets[i].balance.amount = bal - token.amount;
                proof {
                    assert(self@.assets =~= before.assets.update(
                        i as int,
                        GAsset {
                            balance: GCoin {
                                denom: token@.denom,
                                amount: before.assets[i as int].balance.amount - token@.amount,
                            },
                            ..before.assets[i as int]
                        },
                    ));
                }
                return Ok(token);
            }
            i = i + 1;
        }
        Err(ContractError::DenomNotFound)
    }

    /// Mints shares: adds the coin to the supply if it is denominated by the
    /// pool's share token.
    pub fn add_supply(&mut self, token: Coin) -> (r: Result<Coin, ContractError>)
        ensures
            r is Ok <==> token@.denom == old(self)@.supply.denom && old(self)@.supply.amount
                + token@.amount <= u128::MAX,
            r matches Ok(c) ==> c@ == token@ && final(self)@ == (GPool {
                supply: GCoin {
                    denom: old(self)@.supply.denom,
                    amount: old(self)@.supply.amount + token@.amount,
                },
                ..old(self)@
            }),
            r is Err ==> final(self)@ == old(self)@,
            token@.denom != old(self)@.supply.denom ==> r == Err::<Coin, ContractError>(
                ContractError::DenomMismatch,
            ),
            token@.denom == old(self)@.supply.denom && r is Err ==> r == Err::<
                Coin,
                ContractError,
            >(ContractError::Overflow),
    {
        if self.supply.denom == token.denom {
            if token.amount > u128::MAX - self.supply.amount {
                return Err(ContractError::Overflow);
            }
            self.supply.amount = self.supply.amount + token.amount;
            Ok(token)
        } else {
            Err(ContractError::DenomMismatch)
        }
    }

    /// Burns shares: subtracts the coin from the supply if it is denominated
    /// by the pool's share token.
    pub fn subtract_supply(&mut self, token: Coin) -> (r: Result<Coin, ContractError>)
        ensures
            r is Ok <==> token@.denom == old(self)@.supply.denom && old(self)@.supply.amount
                >= token@.amount,
            r matches Ok(c) ==> c@ == token@ && final(self)@ == (GPool {
                supply: GCoin {
                    denom: old(self)@.supply.denom,
                    amount: old(self)@.supply.amount - token@.amount,
                },
                ..old(self)@
            }),
            r is Err ==> final(self)@ == old(self)@,
            token@.denom != old(self)@.supply.denom ==> r == Err::<Coin, ContractError>(
                ContractError::DenomMismatch,
            ),
            token@.denom == old(self)@.supply.denom && r is Err ==> r == Err::<
                Coin,
                ContractError,
            >(ContractError::InsufficientSupply),
    {
        if self.supply.denom == token.denom {
            if token.amount > self.supply.amount {
                return Err(ContractError::InsufficientSupply);
            }
            self.supply.amount = self.supply.amount - token.amount;
            Ok(token)
        } else {
            Err(ContractError::DenomMismatch)
        }
    }
}

/// Governance proposal to change a pool's fee rate.
#[derive(Clone, Debug)]
pub struct MarketFeeUpdateProposal {
    pub title: String,
    pub description: String,
    pub pool_id: String,
    pub fee_rate: u32,
}

/// Stateless pricing layer over a pool snapshot; recomputed per call, never
/// persisted.
#[derive(Clone, Debug)]
pub struct InterchainMarketMaker {
    pub pool_id: String,
    pub pool: InterchainLiquidityPool,
    pub fee_rate: u32,
}

/// Ratio of redeemed shares to the outstanding supply, on the fixed-point
/// grid.
pub open spec fn wd_ratio(redeem: int, supply: int) -> int {
    redeem * (SCALE as int) / supply
}

/// Amount of one asset owed for a withdrawal at the given share ratio.
pub open spec fn wd_out(balance: int, ratio: int) -> int {
    balance * ratio / (SCALE as int)
}

/// The required input grossed up by the fee: `x / (1 - fee)` on the
/// fixed-point grid.
pub open spec fn offer_gross(x: int, fee_rate: int) -> int {
    x * (SCALE as int) / ((SCALE as int) - fee_rate * ((SCALE as int) / 10000))
}

/// Every asset can cover its withdrawal payout at the given share ratio.
pub open spec fn wd_all_within(assets: Seq<GAsset>, ratio: int) -> bool {
    forall|i: int|
        0 <= i < assets.len() ==> wd_out((#[trigger] assets[i]).balance.amount, ratio)
            <= assets[i].balance.amount
}

impl InterchainMarketMaker {
    /// Market-maker invariant: a well-formed pool snapshot and a fee within
    /// the basis-point range.
    pub open spec fn wf(self) -> bool {
        &&& self.pool@.wf()
        &&& 0 <= self.fee_rate <= FEE_PRECISION
    }

    /// Ephemeral pricing view over a pool snapshot.
    pub fn new(pool_data: &InterchainLiquidityPool, fee_rate: u32) -> (mm: InterchainMarketMaker)
        ensures
            mm.pool@ == pool_data@,
            mm.pool_id@ == pool_data@.id,
            mm.fee_rate == fee_rate,
    {
        InterchainMarketMaker { pool_id: pool_data.id.clone(), pool: pool_data.dup(), fee_rate }
    }

    /// Prices a single-sided deposit: the pool must be active, and the
    /// minted shares follow the single-asset constant-function formula on
    /// the matching asset.
    pub fn deposit_single_asset(&self, token: &Coin) -> (r: Result<Coin, ContractError>)
        requires
            self.wf(),
        ensures
            ({
                let assets = self.pool@.assets;
                let d = token@.denom;
                let idx = denom_idx(assets, d);
                let bal = assets[idx].balance.amount;
                let w = assets[idx].weight;
                let supply = self.pool@.supply.amount;
                &&& (!has_denom(assets, d) <==> r == Err::<Coin, ContractError>(
                    ContractError::AssetNotFound,
                ))
                &&& (has_denom(assets, d) && self.pool@.status != PoolStatus::Active ==> r == Err::<
                    Coin,
                    ContractError,
                >(ContractError::PoolNotActive))
                &&& (has_denom(assets, d) && self.pool@.status == PoolStatus::Active ==> {
                    &&& (r == Err::<Coin, ContractError>(ContractError::MathUndefined) <==> (bal
                        == 0 || supply == 0))
                    &&& (r is Ok <==> bal > 0 && supply > 0 && single_fits(
                        token@.amount,
                        bal,
                        w as nat,
                        self.fee_rate as int,
                        supply,
                    ))
                    &&& (r matches Ok(c) ==> c@.denom == self.pool@.supply.denom && c@.amount
                        == single_minted(
                        token@.amount,
                        bal,
                        w as nat,
                        self.fee_rate as int,
                        supply,
                    ))
                    &&& (bal > 0 && supply > 0 && !single_fits(
                        token@.amount,
                        bal,
                        w as nat,
                        self.fee_rate as int,
                        supply,
                    ) ==> r == Err::<Coin, ContractError>(ContractError::Overflow))
                })
            }),
    {
        let asset = match self.pool.find_asset_by_denom(&token.denom) {
            Ok(a) => a,
            Err(_) => {
                return Err(ContractError::AssetNotFound);
            },
        };
        if !matches!(self.pool.status, PoolStatus::Active) {
            return Err(ContractError::PoolNotActive);
        }
        proof {
            let idx = denom_idx(self.pool@.assets, token@.denom);
            assert(has_denom(self.pool@.assets, token@.denom));
            assert(0 <= idx < self.pool@.assets.len() && self.pool@.assets[idx].balance.denom
                == token@.denom);
            assert(0 <= self.pool@.assets[idx].weight <= 100);
        }
        let (minted, _fee_charged) = match calc_minted_shares_given_single_asset_in(
            token.amount,
            asset.balance.amount,
            asset.weight,
            self.fee_rate,
            self.pool.supply.amount,
        ) {
            Ok(p) => p,
            Err(e) => {
                return Err(e);
            },
        };
        Ok(Coin { denom: self.pool.supply.denom.clone(), amount: minted })
    }


    /// Maximal exact-ratio join: absorbs as much of the provided coins as
    /// the pool's current balance ratios allow, returning the minted shares,
    /// the absorbed coins and the unabsorbed remainders.
    ///
    /// On a freshly initialized pool with zero supply the deposit bootstraps
    /// the share supply with a fixed initial mint and absorbs the coins as
    /// they are, with no ratio check and no remainder.  Otherwise the
    /// minimum ratio of deposit to balance over all coins binds; coins above
    /// it keep their excess as remainder rather than failing.
    pub fn deposit_multi_asset(&self, tokens: &Vec<Coin>) -> (r: Result<
        (u128, Vec<Coin>, Vec<Coin>),
        ContractError,
    >)
        requires
            self.pool@.denoms_unique(),
            tokens@.len() >= 1,
        ensures
            ({
                let assets = self.pool@.assets;
                let toks = tokens@.map_values(|c: Coin| c@);
                let supply = self.pool@.supply.amount;
                let boot = self.pool@.status == PoolStatus::Initialized && supply == 0;
                &&& (boot ==> (r matches Ok(o) ==> o.0 == INIT_LP_TOKENS * MULTIPLIER
                    && o.1@.map_values(|c: Coin| c@) == toks && o.2@.len() == 0))
                &&& (boot ==> r is Ok)
                &&& (!boot ==> {
                    &&& (r == Err::<(u128, Vec<Coin>, Vec<Coin>), ContractError>(
                        ContractError::DenomNotFound,
                    ) <==> exists|i: int|
                        0 <= i < toks.len() && !has_denom(assets, (#[trigger] toks[i]).denom))
                    &&& ((forall|i: int|
                        0 <= i < toks.len() ==> has_denom(assets, (#[trigger] toks[i]).denom))
                        ==> (r == Err::<(u128, Vec<Coin>, Vec<Coin>), ContractError>(
                        ContractError::MathUndefined,
                    ) <==> !multi_ok(assets, toks)))
                    &&& (multi_ok(assets, toks) ==> {
                        let m = multi_min(assets, toks);
                        &&& (r is Ok <==> multi_fits(assets, toks, supply))
                        &&& (!multi_fits(assets, toks, supply) ==> r == Err::<
                            (u128, Vec<Coin>, Vec<Coin>),
                            ContractError,
                        >(ContractError::Overflow))
                        &&& (r matches Ok(o) ==> {
                            &&& o.0 == multi_minted(assets, toks, supply)
                            &&& (m == multi_max(assets, toks) ==> o.1@.map_values(|c: Coin| c@)
                                == toks && o.2@.len() == 0)
                            &&& (m != multi_max(assets, toks) ==> o.1@.map_values(|c: Coin| c@)
                                == multi_used_prefix(assets, toks, m, toks.len() as int)
                                && o.2@.map_values(|c: Coin| c@) == multi_rem_prefix(
                                assets,
                                toks,
                                m,
                                toks.len() as int,
                            ))
                        })
                    })
                })
            }),
    {
        let ghost assets = self.pool@.assets;
        let ghost toks = tokens@.map_values(|c: Coin| c@);
        let n: usize = tokens.len();
        if matches!(self.pool.status, PoolStatus::Initialized) && self.pool.supply.amount == 0 {
            let mut accepted: Vec<Coin> = Vec::new();
            let mut i: usize = 0;
            while i < n
                invariant
                    n == tokens.len(),
                    i <= n,
                    self.pool@.status == PoolStatus::Initialized,
                    self.pool@.supply.amount == 0,
                    accepted@.len() == i,
                    forall|k: int| 0 <= k < i ==> (#[trigger] accepted@[k])@ == tokens@[k]@,
                decreases n - i,
            {
                accepted.push(tokens[i].dup());
                i = i + 1;
            }
            proof {
                assert(accepted@.map_values(|c: Coin| c@) =~= toks);
            }
            return Ok((INIT_LP_TOKENS * MULTIPLIER, accepted, Vec::new()));
        }
        let mut i: usize = 0;
        while i < n
            invariant
                n == tokens.len(),
                i <= n,
                assets == self.pool@.assets,
                toks == tokens@.map_values(|c: Coin| c@),
                self.pool@.denoms_unique(),
                !(self.pool@.status == PoolStatus::Initialized && self.pool@.supply.amount == 0),
                forall|k: int| 0 <= k < i ==> has_denom(assets, (#[trigger] toks[k]).denom),
            decreases n - i,
        {
            match self.pool.find_asset_by_denom(&tokens[i].denom) {
                Ok(_) => {},
                Err(_) => {
                    proof {
                        let ghost ii = i as int;
                        assert(!has_denom(assets, (toks[ii]).denom));
                        assert(!multi_ok(assets, toks)) by {
                            if multi_ok(assets, toks) {
                                assert(has_denom(assets, (toks[ii]).denom));
                            }
                        }
                    }
                    return Err(ContractError::DenomNotFound);
                },
            };
            i = i + 1;
        }
        let mut i: usize = 0;
        while i < n
            invariant
                n == tokens.len(),
                i <= n,
                assets == self.pool@.assets,
                toks == tokens@.map_values(|c: Coin| c@),
                self.pool@.denoms_unique(),
                !(self.pool@.status == PoolStatus::Initialized && self.pool@.supply.amount == 0),
                forall|k: int| 0 <= k < n ==> has_denom(assets, (#[trigger] toks[k]).denom),
                forall|k: int|
                    0 <= k < i ==> assets[denom_idx(
                        assets,
                        (#[trigger] toks[k]).denom,
                    )].balance.amount > 0,
            decreases n - i,
        {
            let asset = match self.pool.find_asset_by_denom(&tokens[i].denom) {
                Ok(a) => a,
                Err(_) => {
                    proof {
                        assert(has_denom(assets, (toks[i as int]).denom));
                        assert(false);
                    }
                    return Err(ContractError::DenomNotFound);
                },
            };
            if asset.balance.amount == 0 {
                proof {
                    let ghost ii = i as int;
                    assert(!multi_ok(assets, toks)) by {
                        if multi_ok(assets, toks) {
                            assert(has_denom(assets, (toks[ii]).denom) && assets[denom_idx(
                                assets,
                                toks[ii].denom,
                            )].balance.amount > 0);
                        }
                    }
                }
                return Err(ContractError::MathUndefined);
            }
            i = i + 1;
        }
        proof {
            assert(multi_ok(assets, toks));
        }
        let mut ratios: Vec<u128> = Vec::new();
        let mut i: usize = 0;
        while i < n
            invariant
                n == tokens.len(),
                i <= n,
                assets == self.pool@.assets,
                toks == tokens@.map_values(|c: Coin| c@),
                self.pool@.denoms_unique(),
                !(self.pool@.status == PoolStatus::Initialized && self.pool@.supply.amount == 0),
                multi_ok(assets, toks),
                ratios@.len() == i,
                forall|k: int|
                    0 <= k < i ==> (#[trigger] ratios@[k]) == multi_ratio(assets, toks[k]),
            decreases n - i,
        {
            let asset = match self.pool.find_asset_by_denom(&tokens[i].denom) {
                Ok(a) => a,
                Err(_) => {
                    proof {
                        assert(has_denom(assets, (toks[i as int]).denom));
                        assert(false);
                    }
                    return Err(ContractError::DenomNotFound);
                },
            };
            proof {
                assert(has_denom(assets, (toks[i as int]).denom) && assets[denom_idx(
                    assets,
                    toks[i as int].denom,
                )].balance.amount > 0);
            }
            let rt: u128 = match crate::math::mul_div_floor(
                tokens[i].amount,
                SCALE,
                asset.balance.amount,
            ) {
                Some(rt) => rt,
                None => {
                    proof {
                        let ghost ii = i as int;
                        assert(!multi_fits(assets, toks, self.pool@.supply.amount)) by {
                            if multi_fits(assets, toks, self.pool@.supply.amount) {
                                assert(multi_ratio(assets, toks[ii]) <= u128::MAX);
                            }
                        }
                    }
                    return Err(ContractError::Overflow);
                },
            };
            ratios.push(rt);
            i = i + 1;
        }
        
        let mut min_fp: u128 = ratios[0];
        let mut max_fp: u128 = ratios[0];
        let mut i: usize = 1;
        while i < n
            invariant
                n == tokens.len(),
                1 <= i <= n,
                assets == self.pool@.assets,
                toks == tokens@.map_values(|c: Coin| c@),
                !(self.pool@.status == PoolStatus::Initialized && self.pool@.supply.amount == 0),
                multi_ok(assets, toks),
                ratios@.len() == n,
                forall|k: int|
                    0 <= k < n ==> (#[trigger] ratios@[k]) == multi_ratio(assets, toks[k]),
                min_fp == multi_min_prefix(assets, toks, i as int),
                max_fp == multi_max_prefix(assets, toks, i as int),
            decreases n - i,
        {
            let rt: u128 = ratios[i];
            if rt < min_fp {
                min_fp = rt;
            }
            if rt > max_fp {
                max_fp = rt;
            }
            i = i + 1;
        }
        let shares: u128 = match crate::math::mul_div_floor(
            self.pool.supply.amount,
            min_fp,
            SCALE,
        ) {
            Some(sh) => sh,
            None => {
                return Err(ContractError::Overflow);
            },
        };
        proof {
            assert forall|k: int|
                0 <= k < toks.len() implies multi_ratio(assets, #[trigger] toks[k])
                <= u128::MAX by {
                assert(ratios@[k] == multi_ratio(assets, toks[k]));
            }
            assert(multi_fits(assets, toks, self.pool@.supply.amount));
        }
        if min_fp == max_fp {
            let mut accepted: Vec<Coin> = Vec::new();
            let mut i: usize = 0;
            while i < n
                invariant
                    n == tokens.len(),
                    i <= n,
                    assets == self.pool@.assets,
                    toks == tokens@.map_values(|c: Coin| c@),
                    !(self.pool@.status == PoolStatus::Initialized && self.pool@.supply.amount == 0),
                    multi_ok(assets, toks),
                    toks.len() == n,
                    multi_fits(assets, toks, self.pool@.supply.amount),
                    min_fp == multi_min(assets, toks),
                    min_fp == multi_max(assets, toks),
                    shares == multi_minted(assets, toks, self.pool@.supply.amount),
                    accepted@.len() == i,
                    forall|k: int| 0 <= k < i ==> (#[trigger] accepted@[k])@ == tokens@[k]@,
                decreases n - i,
            {
                accepted.push(tokens[i].dup());
                i = i + 1;
            }
            proof {
                assert(accepted@.map_values(|c: Coin| c@) =~= toks);
            }
            return Ok((shares, accepted, Vec::new()));
        }
        let ghost m = multi_min(assets, toks);
        let mut added: Vec<Coin> = Vec::new();
        let mut rem: Vec<Coin> = Vec::new();
        let mut i: usize = 0;
        while i < n
            invariant
                n == tokens.len(),
                i <= n,
                assets == self.pool@.assets,
                toks == tokens@.map_values(|c: Coin| c@),
                self.pool@.denoms_unique(),
                !(self.pool@.status == PoolStatus::Initialized && self.pool@.supply.amount == 0),
                multi_ok(assets, toks),
                multi_fits(assets, toks, self.pool@.supply.amount),
                shares == multi_minted(assets, toks, self.pool@.supply.amount),
                m != multi_max(assets, toks),
                ratios@.len() == n,
                forall|k: int|
                    0 <= k < n ==> (#[trigger] ratios@[k]) == multi_ratio(assets, toks[k]),
                m == multi_min(assets, toks),
                min_fp == m,
                0 <= m <= u128::MAX,
                toks.len() == n,
                added@.map_values(|c: Coin| c@) == multi_used_prefix(assets, toks, m, i as int),
                rem@.map_values(|c: Coin| c@) == multi_rem_prefix(assets, toks, m, i as int),
            decreases n - i,
        {
            let ghost ii = i as int;
            let asset = match self.pool.find_asset_by_denom(&tokens[i].denom) {
                Ok(a) => a,
                Err(_) => {
                    proof {
                        assert(has_denom(assets, (toks[ii]).denom));
                        assert(false);
                    }
                    return Err(ContractError::DenomNotFound);
                },
            };
            proof {
                assert(has_denom(assets, (toks[ii]).denom) && assets[denom_idx(
                    assets,
                    toks[ii].denom,
                )].balance.amount > 0);
                lemma_min_prefix_le(assets, toks, n as int, ii);
                lemma_used_le_amount(
                    m,
                    toks[ii].amount,
                    assets[denom_idx(assets, toks[ii].denom)].balance.amount,
                );
            }
            let used: u128 = match crate::math::mul_div_floor(min_fp, asset.balance.amount, SCALE) {
                Some(u) => u,
                None => {
                    proof {
                        assert(false);
                    }
                    return Err(ContractError::Overflow);
                },
            };
            let new_amount: u128 = tokens[i].amount - used;
            added.push(Coin { denom: tokens[i].denom.clone(), amount: used });
            if ratios[i] != min_fp && new_amount != 0 {
                rem.push(Coin { denom: tokens[i].denom.clone(), amount: new_amount });
            }
            proof {
                assert(added@.map_values(|c: Coin| c@) =~= multi_used_prefix(
                    assets,
                    toks,
                    m,
                    ii + 1,
                ));
                assert(rem@.map_values(|c: Coin| c@) =~= multi_rem_prefix(assets, toks, m, ii + 1));
            }
            i = i + 1;
        }
        Ok((shares, added, rem))
    }

    /// Prices a proportional withdrawal: every asset pays out its balance
    /// scaled by the redeemed share of the supply, rounded down.
    pub fn multi_asset_withdraw(&self, redeem: Coin) -> (r: Result<Vec<Coin>, ContractError>)
        ensures
            ({
                let assets = self.pool@.assets;
                let supply = self.pool@.supply.amount;
                let ratio = wd_ratio(redeem@.amount, supply);
                &&& (r == Err::<Vec<Coin>, ContractError>(ContractError::MathUndefined) <==> supply
                    == 0)
                &&& (supply > 0 ==> {
                    &&& (r is Ok <==> wd_all_within(assets, ratio))
                    &&& (r matches Ok(v) ==> v@.len() == assets.len() && forall|i: int|
                        0 <= i < assets.len() ==> (#[trigger] v@[i])@ == (GCoin {
                            denom: assets[i].balance.denom,
                            amount: wd_out(assets[i].balance.amount, ratio),
                        }))
                    &&& (r is Err ==> r == Err::<Vec<Coin>, ContractError>(
                        ContractError::InvalidWithdrawAmount,
                    ))
                })
            }),
    {
        if self.pool.supply.amount == 0 {
            return Err(ContractError::MathUndefined);
        }
        let ghost ratio = wd_ratio(redeem@.amount, self.pool@.supply.amount);
        let n: usize = self.pool.assets.len();
        let mut refunds: Vec<Coin> = Vec::new();
        match crate::math::mul_div_floor(redeem.amount, SCALE, self.pool.supply.amount) {
            Some(rt) => {
                let mut i: usize = 0;
                while i < n
                    invariant
                        n == self.pool.assets.len(),
                        i <= n,
                        self.pool@.supply.amount > 0,
                        ratio == wd_ratio(redeem@.amount, self.pool@.supply.amount),
                        rt == ratio,
                        0 <= ratio <= u128::MAX,
                        refunds@.len() == i,
                        forall|k: int|
                            0 <= k < i ==> (#[trigger] refunds@[k])@ == (GCoin {
                                denom: self.pool@.assets[k].balance.denom,
                                amount: wd_out(self.pool@.assets[k].balance.amount, ratio),
                            }),
                        forall|k: int|
                            0 <= k < i ==> wd_out(
                                (#[trigger] self.pool@.assets[k]).balance.amount,
                                ratio,
                            ) <= self.pool@.assets[k].balance.amount,
                    decreases n - i,
                {
                    let bal: u128 = self.pool.assets[i].balance.amount;
                    let out: u128 = match crate::math::mul_div_floor(bal, rt, SCALE) {
                        Some(o) => o,
                        None => {
                            proof {
                                let ghost ii = i as int;
                                assert(wd_out((self.pool@.assets[ii]).balance.amount, ratio)
                                    > self.pool@.assets[ii].balance.amount);
                                assert(!wd_all_within(self.pool@.assets, ratio)) by {
                                    if wd_all_within(self.pool@.assets, ratio) {
                                        assert(wd_out(
                                            (self.pool@.assets[ii]).balance.amount,
                                            ratio,
                                        ) <= self.pool@.assets[ii].balance.amount);
                                    }
                                }
                            }
                            return Err(ContractError::InvalidWithdrawAmount);
                        },
                    };
                    if out > bal {
                        proof {
                            let ghost ii = i as int;
                            assert(!wd_all_within(self.pool@.assets, ratio)) by {
                                if wd_all_within(self.pool@.assets, ratio) {
                                    assert(wd_out((self.pool@.assets[ii]).balance.amount, ratio)
                                        <= self.pool@.assets[ii].balance.amount);
                                }
                            }
                        }
                        return Err(ContractError::InvalidWithdrawAmount);
                    }
                    refunds.push(
                        Coin { denom: self.pool.assets[i].balance.denom.clone(), amount: out },
                    );
                    i = i + 1;
                }
                Ok(refunds)
            },
            None => {
                let mut i: usize = 0;
                while i < n
                    invariant
                        n == self.pool.assets.len(),
                        i <= n,
                        self.pool@.supply.amount > 0,
                        ratio == wd_ratio(redeem@.amount, self.pool@.supply.amount),
                        ratio > u128::MAX,
                        refunds@.len() == i,
                        forall|k: int|
                            0 <= k < i ==> (#[trigger] refunds@[k])@ == (GCoin {
                                denom: self.pool@.assets[k].balance.denom,
                                amount: wd_out(self.pool@.assets[k].balance.amount, ratio),
                            }),
                        forall|k: int|
                            0 <= k < i ==> (#[trigger] self.pool@.assets[k]).balance.amount == 0,
                    decreases n - i,
                {
                    let bal: u128 = self.pool.assets[i].balance.amount;
                    if bal > 0 {
                        proof {
                            lemma_big_ratio_exceeds(bal as int, ratio);
                            let ghost ii = i as int;
                            assert(!wd_all_within(self.pool@.assets, ratio)) by {
                                if wd_all_within(self.pool@.assets, ratio) {
                                    assert(wd_out((self.pool@.assets[ii]).balance.amount, ratio)
                                        <= self.pool@.assets[ii].balance.amount);
                                }
                            }
                        }
                        return Err(ContractError::InvalidWithdrawAmount);
                    }
                    proof {
                        assert(wd_out(0, ratio) == 0) by {
                            assert(0 * ratio == 0);
                        }
                    }
                    refunds.push(
                        Coin { denom: self.pool.assets[i].balance.denom.clone(), amount: 0 },
                    );
                    i = i + 1;
                }
                Ok(refunds)
            },
        }
    }


    /// Exact-in swap pricing: the output follows the constant-function
    /// invariant with the in-balance grown by the paid amount, rescaled to
    /// the out-asset's native decimal precision.
    pub fn compute_swap(&self, amount_in: Coin, denom_out: &String) -> (r: Result<
        Coin,
        ContractError,
    >)
        requires
            self.pool@.denoms_unique(),
        ensures
            r is Ok <==> swap_ok(self.pool@, amount_in@, denom_out@),
            ({
                let assets = self.pool@.assets;
                let din = amount_in@.denom;
                let dout = denom_out@;
                &&& (r == Err::<Coin, ContractError>(ContractError::DenomNotFound) <==> !has_denom(
                    assets,
                    din,
                ) || !has_denom(assets, dout))
                &&& (has_denom(assets, din) && has_denom(assets, dout) ==> {
                    let ain = assets[denom_idx(assets, din)];
                    let aout = assets[denom_idx(assets, dout)];
                    let post = ain.balance.amount + amount_in@.amount;
                    let raw = cfi_amount(
                        ain.balance.amount,
                        post,
                        ain.weight as nat,
                        aout.weight as nat,
                        aout.balance.amount,
                    );
                    let adjusted = sadjust(raw, 18, aout.decimal as nat);
                    &&& (r == Err::<Coin, ContractError>(ContractError::MathUndefined) <==> post
                        <= u128::MAX && (post == 0 || aout.weight == 0))
                    &&& (r is Ok <==> post > 0 && post <= u128::MAX && aout.weight != 0
                        && cfi_fits(
                        ain.balance.amount,
                        post,
                        ain.weight as nat,
                        aout.weight as nat,
                        aout.balance.amount,
                    ) && adjusted <= u128::MAX)
                    &&& (r matches Ok(c) ==> c@.denom == dout && c@.amount == adjusted)
                    &&& (!(r is Ok) && !(post <= u128::MAX && (post == 0 || aout.weight == 0))
                        ==> r == Err::<Coin, ContractError>(ContractError::Overflow))
                })
            }),
    {
        let asset_in = match self.pool.find_asset_by_denom(&amount_in.denom) {
            Ok(a) => a,
            Err(e) => {
                return Err(e);
            },
        };
        let asset_out = match self.pool.find_asset_by_denom(denom_out) {
            Ok(a) => a,
            Err(e) => {
                return Err(e);
            },
        };
        if amount_in.amount > u128::MAX - asset_in.balance.amount {
            return Err(ContractError::Overflow);
        }
        let post: u128 = asset_in.balance.amount + amount_in.amount;
        let raw: u128 = match crate::math::solve_constant_function_invariant(
            asset_in.balance.amount,
            post,
            asset_in.weight,
            asset_out.balance.amount,
            asset_out.weight,
        ) {
            Ok(v) => v,
            Err(e) => {
                return Err(e);
            },
        };
        match crate::math::adjust_precision(raw, 18, asset_out.decimal) {
            Ok(adj) => Ok(Coin { denom: denom_out.clone(), amount: adj }),
            Err(e) => Err(e),
        }
    }

    /// Exact-out swap pricing: solves the invariant for the required input
    /// given the desired output, rescales it to the in-asset's native
    /// decimal precision, and grosses it up by the fee the payer must
    /// additionally supply.
    pub fn compute_offer_amount(&self, amount_in: Coin, amount_out: Coin) -> (r: Result<
        Coin,
        ContractError,
    >)
        requires
            self.pool@.denoms_unique(),
            self.fee_rate <= FEE_PRECISION as u32,
        ensures
            r is Ok <==> offer_ok(self.pool@, amount_in@, amount_out@, self.fee_rate as int),
            ({
                let assets = self.pool@.assets;
                let din = amount_in@.denom;
                let dout = amount_out@.denom;
                &&& (r == Err::<Coin, ContractError>(ContractError::DenomNotFound) <==> !has_denom(
                    assets,
                    din,
                ) || !has_denom(assets, dout))
                &&& (has_denom(assets, din) && has_denom(assets, dout) ==> {
                    let ain = assets[denom_idx(assets, din)];
                    let aout = assets[denom_idx(assets, dout)];
                    let post = aout.balance.amount - amount_out@.amount;
                    let raw = cfi_amount(
                        aout.balance.amount,
                        post,
                        aout.weight as nat,
                        ain.weight as nat,
                        ain.balance.amount,
                    );
                    let adjusted = sadjust(raw, 18, ain.decimal as nat);
                    let gross = offer_gross(adjusted, self.fee_rate as int);
                    &&& (r == Err::<Coin, ContractError>(ContractError::MathUndefined)
                        <==> self.fee_rate == FEE_PRECISION as u32 || amount_out@.amount
                        >= aout.balance.amount || ain.weight == 0)
                    &&& (r is Ok <==> self.fee_rate != FEE_PRECISION as u32 && amount_out@.amount
                        < aout.balance.amount && ain.weight != 0 && cfi_fits(
                        aout.balance.amount,
                        post,
                        aout.weight as nat,
                        ain.weight as nat,
                        ain.balance.amount,
                    ) && adjusted <= u128::MAX && gross <= u128::MAX)
                    &&& (r matches Ok(c) ==> c@.denom == din && c@.amount == gross)
                    &&& (!(r is Ok) && !(self.fee_rate == FEE_PRECISION as u32 || amount_out@.amount
                        >= aout.balance.amount || ain.weight == 0) ==> r == Err::<
                        Coin,
                        ContractError,
                    >(ContractError::Overflow))
                })
            }),
    {
        let asset_in = match self.pool.find_asset_by_denom(&amount_in.denom) {
            Ok(a) => a,
            Err(e) => {
                return Err(e);
            },
        };
        let asset_out = match self.pool.find_asset_by_denom(&amount_out.denom) {
            Ok(a) => a,
            Err(e) => {
                return Err(e);
            },
        };
        if self.fee_rate == FEE_PRECISION as u32 {
            return Err(ContractError::MathUndefined);
        }
        if amount_out.amount > asset_out.balance.amount {
            return Err(ContractError::MathUndefined);
        }
        let post: u128 = asset_out.balance.amount - amount_out.amount;
        let raw: u128 = match crate::math::solve_constant_function_invariant(
            asset_out.balance.amount,
            post,
            asset_out.weight,
            asset_in.balance.amount,
            asset_in.weight,
        ) {
            Ok(v) => v,
            Err(e) => {
                return Err(e);
            },
        };
        let adjusted: u128 = match crate::math::adjust_precision(raw, 18, asset_in.decimal) {
            Ok(adj) => adj,
            Err(e) => {
                return Err(e);
            },
        };
        proof {
            vstd::arithmetic::mul::lemma_mul_inequality(
                self.fee_rate as int,
                9999,
                (SCALE as int) / 10000,
            );
            vstd::arithmetic::mul::lemma_mul_is_commutative(
                self.fee_rate as int,
                (SCALE as int) / 10000,
            );
            vstd::arithmetic::mul::lemma_mul_is_commutative(9999, (SCALE as int) / 10000);
        }
        let dm: u128 = SCALE - (self.fee_rate as u128) * (SCALE / 10000);
        match crate::math::mul_div_floor(adjusted, SCALE, dm) {
            Some(v) => Ok(Coin { denom: amount_in.denom, amount: v }),
            None => Err(ContractError::Overflow),
        }
    }

    /// The amount with the pool's fee taken off, as a raw 18-decimal value.
    pub fn minus_fees(&self, amount: u128) -> (r: Result<u128, ContractError>)
        requires
            self.fee_rate <= FEE_PRECISION as u32,
        ensures
            r is Ok <==> amount * SCALE <= u128::MAX,
            r matches Ok(v) ==> v == amount * SCALE - (amount * SCALE) * (self.fee_rate * (
            (SCALE as int) / 10000)) / (SCALE as int),
            r is Err ==> r == Err::<u128, ContractError>(ContractError::Overflow),
    {
        let amount_fp: u128 = match crate::math::mul_div_floor(amount, SCALE, 1) {
            Some(v) => {
                proof {
                    crate::math::lemma_mul_div_one(amount as int, SCALE as int);
                }
                v
            },
            None => {
                proof {
                    crate::math::lemma_mul_div_one(amount as int, SCALE as int);
                }
                return Err(ContractError::Overflow);
            },
        };
        proof {
            vstd::arithmetic::mul::lemma_mul_inequality(
                self.fee_rate as int,
                10000,
                (SCALE as int) / 10000,
            );
            vstd::arithmetic::mul::lemma_mul_is_commutative(self.fee_rate as int, (SCALE as int) / 10000);
            vstd::arithmetic::mul::lemma_mul_is_commutative(10000, (SCALE as int) / 10000);
        }
        let fee_fp: u128 = (self.fee_rate as u128) * (SCALE / 10000);
        let fees: u128 = match crate::math::mul_div_floor(amount_fp, fee_fp, SCALE) {
            Some(f) => {
                proof {
                    lemma_fee_at_most(amount_fp as int, fee_fp as int);
                }
                f
            },
            None => {
                proof {
                    lemma_fee_at_most(amount_fp as int, fee_fp as int);
                }
                return Err(ContractError::Overflow);
            },
        };
        Ok(amount_fp - fees)
    }
}

/// A share ratio beyond the 128-bit range pays out more than any positive
/// balance.
proof fn lemma_big_ratio_exceeds(bal: int, ratio: int)
    requires
        bal >= 1,
        ratio > u128::MAX,
    ensures
        wd_out(bal, ratio) > bal,
{
    vstd::arithmetic::mul::lemma_mul_inequality(2 * (SCALE as int), ratio, bal);
    vstd::arithmetic::mul::lemma_mul_is_commutative(2 * (SCALE as int), bal);
    vstd::arithmetic::mul::lemma_mul_is_commutative(ratio, bal);
    vstd::arithmetic::div_mod::lemma_div_is_ordered(
        bal * (2 * (SCALE as int)),
        bal * ratio,
        SCALE as int,
    );
    assert(bal * (2 * (SCALE as int)) == (2 * bal) * (SCALE as int))
        by (nonlinear_arith);
    vstd::arithmetic::div_mod::lemma_div_by_multiple(2 * bal, SCALE as int);
    vstd::arithmetic::mul::lemma_mul_is_commutative(2 * bal, SCALE as int);
}

/// A fee factor of at most one keeps the fee at most the amount.
proof fn lemma_fee_at_most(amount_fp: int, fee_fp: int)
    requires
        0 <= amount_fp,
        0 <= fee_fp <= SCALE,
    ensures
        amount_fp * fee_fp / (SCALE as int) <= amount_fp,
{
    vstd::arithmetic::mul::lemma_mul_inequality(fee_fp, SCALE as int, amount_fp);
    vstd::arithmetic::mul::lemma_mul_is_commutative(fee_fp, amount_fp);
    vstd::arithmetic::mul::lemma_mul_is_commutative(SCALE as int, amount_fp);
    vstd::arithmetic::div_mod::lemma_div_is_ordered(
        amount_fp * fee_fp,
        amount_fp * (SCALE as int),
        SCALE as int,
    );
    vstd::arithmetic::div_mod::lemma_div_by_multiple(amount_fp, SCALE as int);
}


/// Number of share tokens minted on the first deposit into a pool, before
/// share-token decimal scaling.
pub const INIT_LP_TOKENS: u128 = 100;

/// Decimal scaling of the share token: the first mint carries its full
/// eighteen-decimal precision.
pub const MULTIPLIER: u128 = 1_000_000_000_000_000_000;

/// Fixed-point ratio of a deposited amount to the matching pool balance.
pub open spec fn multi_ratio(assets: Seq<GAsset>, t: GCoin) -> int {
    t.amount * (SCALE as int) / assets[denom_idx(assets, t.denom)].balance.amount
}

/// Every deposited coin names a pool asset with a positive balance.
pub open spec fn multi_ok(assets: Seq<GAsset>, tokens: Seq<GCoin>) -> bool {
    forall|i: int|
        0 <= i < tokens.len() ==> has_denom(assets, (#[trigger] tokens[i]).denom) && assets[
            denom_idx(assets, tokens[i].denom)].balance.amount > 0
}

/// Minimum deposit ratio over the first `n` coins.
pub open spec fn multi_min_prefix(assets: Seq<GAsset>, tokens: Seq<GCoin>, n: int) -> int
    decreases n,
{
    if n <= 1 {
        multi_ratio(assets, tokens[0])
    } else {
        let m = multi_min_prefix(assets, tokens, n - 1);
        let r = multi_ratio(assets, tokens[n - 1]);
        if r < m {
            r
        } else {
            m
        }
    }
}

/// Maximum deposit ratio over the first `n` coins.
pub open spec fn multi_max_prefix(assets: Seq<GAsset>, tokens: Seq<GCoin>, n: int) -> int
    decreases n,
{
    if n <= 1 {
        multi_ratio(assets, tokens[0])
    } else {
        let m = multi_max_prefix(assets, tokens, n - 1);
        let r = multi_ratio(assets, tokens[n - 1]);
        if r > m {
            r
        } else {
            m
        }
    }
}

/// The binding ratio of a proportional deposit: the minimum over all coins.
pub open spec fn multi_min(assets: Seq<GAsset>, tokens: Seq<GCoin>) -> int {
    multi_min_prefix(assets, tokens, tokens.len() as int)
}

/// The largest ratio offered by any coin of the deposit.
pub open spec fn multi_max(assets: Seq<GAsset>, tokens: Seq<GCoin>) -> int {
    multi_max_prefix(assets, tokens, tokens.len() as int)
}

/// Portion of coin `i` actually absorbed at binding ratio `m`.
pub open spec fn multi_used(assets: Seq<GAsset>, tokens: Seq<GCoin>, m: int, i: int) -> int {
    m * assets[denom_idx(assets, tokens[i].denom)].balance.amount / (SCALE as int)
}

/// Shares minted for a proportional deposit: the supply scaled by the
/// binding ratio.
pub open spec fn multi_minted(assets: Seq<GAsset>, tokens: Seq<GCoin>, supply: int) -> int {
    supply * multi_min(assets, tokens) / (SCALE as int)
}

/// Deposit ratios and minted shares all fit in 128 bits.
pub open spec fn multi_fits(assets: Seq<GAsset>, tokens: Seq<GCoin>, supply: int) -> bool {
    &&& forall|i: int|
        0 <= i < tokens.len() ==> multi_ratio(assets, #[trigger] tokens[i]) <= u128::MAX
    &&& multi_minted(assets, tokens, supply) <= u128::MAX
}

/// Absorbed portions of the first `n` coins, as a coin list.
pub open spec fn multi_used_prefix(assets: Seq<GAsset>, tokens: Seq<GCoin>, m: int, n: int) -> Seq<
    GCoin,
>
    decreases n,
{
    if n <= 0 {
        Seq::empty()
    } else {
        multi_used_prefix(assets, tokens, m, n - 1).push(
            GCoin {
                denom: tokens[n - 1].denom,
                amount: multi_used(assets, tokens, m, n - 1),
            },
        )
    }
}

/// Unabsorbed remainders of the first `n` coins, as a coin list; coins at
/// the binding ratio contribute no entry.
pub open spec fn multi_rem_prefix(assets: Seq<GAsset>, tokens: Seq<GCoin>, m: int, n: int) -> Seq<
    GCoin,
>
    decreases n,
{
    if n <= 0 {
        Seq::empty()
    } else {
        let pre = multi_rem_prefix(assets, tokens, m, n - 1);
        let i = n - 1;
        if multi_ratio(assets, tokens[i]) != m && tokens[i].amount - multi_used(
            assets,
            tokens,
            m,
            i,
        ) != 0 {
            pre.push(
                GCoin {
                    denom: tokens[i].denom,
                    amount: tokens[i].amount - multi_used(assets, tokens, m, i),
                },
            )
        } else {
            pre
        }
    }
}

/// The prefix minimum is a lower bound on every ratio it covers.
pub proof fn lemma_min_prefix_le(assets: Seq<GAsset>, tokens: Seq<GCoin>, n: int, i: int)
    requires
        0 <= i < n,
        n >= 1,
    ensures
        multi_min_prefix(assets, tokens, n) <= multi_ratio(assets, tokens[i]),
    decreases n,
{
    if n > 1 && i < n - 1 {
        lemma_min_prefix_le(assets, tokens, n - 1, i);
    }
}

/// The prefix minimum is attained at some index it covers.
pub proof fn lemma_min_prefix_attained(assets: Seq<GAsset>, tokens: Seq<GCoin>, n: int)
    requires
        n >= 1,
    ensures
        exists|i: int|
            0 <= i < n && multi_ratio(assets, #[trigger] tokens[i]) == multi_min_prefix(
                assets,
                tokens,
                n,
            ),
    decreases n,
{
    if n == 1 {
        assert(multi_ratio(assets, tokens[0]) == multi_min_prefix(assets, tokens, n));
    } else {
        lemma_min_prefix_attained(assets, tokens, n - 1);
    }
}

/// The prefix maximum is attained at some index it covers.
pub proof fn lemma_max_prefix_attained(assets: Seq<GAsset>, tokens: Seq<GCoin>, n: int)
    requires
        n >= 1,
    ensures
        exists|i: int|
            0 <= i < n && multi_ratio(assets, #[trigger] tokens[i]) == multi_max_prefix(
                assets,
                tokens,
                n,
            ),
    decreases n,
{
    if n == 1 {
        assert(multi_ratio(assets, tokens[0]) == multi_max_prefix(assets, tokens, n));
    } else {
        lemma_max_prefix_attained(assets, tokens, n - 1);
    }
}

/// The binding ratio absorbs at most what each coin brought.
pub proof fn lemma_used_le_amount(m: int, amt: int, bal: int)
    requires
        bal >= 1,
        0 <= amt,
        0 <= m <= amt * (SCALE as int) / bal,
    ensures
        m * bal / (SCALE as int) <= amt,
{
    let s: int = SCALE as int;
    vstd::arithmetic::mul::lemma_mul_inequality(m, amt * s / bal, bal);
    vstd::arithmetic::div_mod::lemma_fundamental_div_mod(amt * s, bal);
    vstd::arithmetic::mul::lemma_mul_is_commutative(amt * s / bal, bal);
    assert((amt * s / bal) * bal <= amt * s);
    vstd::arithmetic::div_mod::lemma_div_is_ordered(m * bal, amt * s, s);
    vstd::arithmetic::div_mod::lemma_div_by_multiple(amt, s);
    vstd::arithmetic::mul::lemma_mul_is_commutative(amt, s);
}

/// A coin strictly above the binding ratio keeps a positive remainder.
pub proof fn lemma_excess_leaves_remainder(m: int, amt: int, bal: int)
    requires
        bal >= 1,
        0 <= amt,
        0 <= m,
        m < amt * (SCALE as int) / bal,
    ensures
        m * bal / (SCALE as int) < amt,
{
    let s: int = SCALE as int;
    let used = m * bal / s;
    if used >= amt {
        vstd::arithmetic::mul::lemma_mul_inequality(amt, used, s);
        vstd::arithmetic::div_mod::lemma_fundamental_div_mod(m * bal, s);
        vstd::arithmetic::mul::lemma_mul_is_commutative(used, s);
        assert(used * s <= m * bal);
        assert(amt * s <= m * bal);
        vstd::arithmetic::div_mod::lemma_div_is_ordered(amt * s, m * bal, bal);
        vstd::arithmetic::div_mod::lemma_div_by_multiple(m, bal);
        vstd::arithmetic::mul::lemma_mul_is_commutative(m, bal);
        assert(amt * s / bal <= m);
        assert(false);
    }
}



/// All conditions under which an exact-in swap quote succeeds: both
/// denominations present, a positive post-trade balance that fits, a
/// positive out-weight, and every intermediate within 128 bits.
pub open spec fn swap_ok(p: GPool, amount_in: GCoin, denom_out: Seq<char>) -> bool {
    let ain = p.assets[denom_idx(p.assets, amount_in.denom)];
    let aout = p.assets[denom_idx(p.assets, denom_out)];
    let post = ain.balance.amount + amount_in.amount;
    &&& has_denom(p.assets, amount_in.denom)
    &&& has_denom(p.assets, denom_out)
    &&& post > 0
    &&& post <= u128::MAX
    &&& aout.weight != 0
    &&& cfi_fits(ain.balance.amount, post, ain.weight as nat, aout.weight as nat,
        aout.balance.amount)
    &&& sadjust(
        cfi_amount(
            ain.balance.amount,
            post,
            ain.weight as nat,
            aout.weight as nat,
            aout.balance.amount,
        ),
        18,
        aout.decimal as nat,
    ) <= u128::MAX
}

/// All conditions under which an exact-out quote succeeds: both
/// denominations present, a fee below one hundred percent, an output below
/// the reserve, a positive in-weight, and every intermediate within 128
/// bits.
pub open spec fn offer_ok(p: GPool, amount_in: GCoin, amount_out: GCoin, fee_rate: int) -> bool {
    let ain = p.assets[denom_idx(p.assets, amount_in.denom)];
    let aout = p.assets[denom_idx(p.assets, amount_out.denom)];
    let post = aout.balance.amount - amount_out.amount;
    &&& has_denom(p.assets, amount_in.denom)
    &&& has_denom(p.assets, amount_out.denom)
    &&& fee_rate != FEE_PRECISION as int
    &&& amount_out.amount < aout.balance.amount
    &&& ain.weight != 0
    &&& cfi_fits(aout.balance.amount, post, aout.weight as nat, ain.weight as nat,
        ain.balance.amount)
    &&& sadjust(
        cfi_amount(
            aout.balance.amount,
            post,
            aout.weight as nat,
            ain.weight as nat,
            ain.balance.amount,
        ),
        18,
        ain.decimal as nat,
    ) <= u128::MAX
    &&& offer_in_amount(p, amount_in, amount_out, fee_rate) <= u128::MAX
}

/// The exact-in swap output of a pool as a raw amount in the out-asset's
/// native precision.
pub open spec fn swap_out_amount(p: GPool, amount_in: GCoin, denom_out: Seq<char>) -> int {
    let ain = p.assets[denom_idx(p.assets, amount_in.denom)];
    let aout = p.assets[denom_idx(p.assets, denom_out)];
    sadjust(
        cfi_amount(
            ain.balance.amount,
            ain.balance.amount + amount_in.amount,
            ain.weight as nat,
            aout.weight as nat,
            aout.balance.amount,
        ),
        18,
        aout.decimal as nat,
    )
}

/// The exact-out required input of a pool, with its fee, as a raw amount in
/// the in-asset's native precision.
pub open spec fn offer_in_amount(p: GPool, amount_in: GCoin, amount_out: GCoin, fee_rate: int) -> int {
    let ain = p.assets[denom_idx(p.assets, amount_in.denom)];
    let aout = p.assets[denom_idx(p.assets, amount_out.denom)];
    offer_gross(
        sadjust(
            cfi_amount(
                aout.balance.amount,
                aout.balance.amount - amount_out.amount,
                aout.weight as nat,
                ain.weight as nat,
                ain.balance.amount,
            ),
            18,
            ain.decimal as nat,
        ),
        fee_rate,
    )
}


/// The fee gross-up of an exact-out quote never reduces the required
/// input: the fee is never negative, so a swap-and-quote round trip never
/// undercuts the fee-free input.
pub proof fn law_fee_never_negative(x: int, fee_rate: int)
    requires
        0 <= x,
        0 <= fee_rate < 10000,
    ensures
        offer_gross(x, fee_rate) >= x,
{
    let s: int = SCALE as int;
    let unit: int = s / 10000;
    let dm: int = s - fee_rate * unit;
    assert(fee_rate * unit <= 9999 * unit) by {
        vstd::arithmetic::mul::lemma_mul_inequality(fee_rate, 9999, unit);
    }
    assert(0 <= fee_rate * unit) by {
        vstd::arithmetic::mul::lemma_mul_nonnegative(fee_rate, unit);
    }
    assert(1 <= dm <= s);
    vstd::arithmetic::mul::lemma_mul_nonnegative(x, s);
    vstd::arithmetic::div_mod::lemma_div_is_ordered_by_denominator(x * s, dm, s);
    vstd::arithmetic::div_mod::lemma_div_by_multiple(x, s);
    vstd::arithmetic::mul::lemma_mul_is_commutative(x, s);
}

/// Equal cross products give equal rounded-down fixed-point ratios.
proof fn lemma_ratio_cross(a: int, b: int, c: int, d: int)
    requires
        b >= 1,
        d >= 1,
        a >= 0,
        c >= 0,
        a * d == c * b,
    ensures
        a * (SCALE as int) / b == c * (SCALE as int) / d,
{
    let s: int = SCALE as int;
    let q = a * s / b;
    vstd::arithmetic::div_mod::lemma_fundamental_div_mod(a * s, b);
    vstd::arithmetic::mul::lemma_mul_nonnegative(a, s);
    vstd::arithmetic::div_mod::lemma_div_pos_is_pos(a * s, b);
    assert(q * b <= a * s < (q + 1) * b) by (nonlinear_arith)
        requires
            a * s == b * q + (a * s) % b,
            0 <= (a * s) % b < b,
    {}
    assert(q * d <= c * s) by (nonlinear_arith)
        requires
            q * b <= a * s,
            a * d == c * b,
            b >= 1,
            d >= 1,
            0 <= q,
    {}
    assert(c * s < (q + 1) * d) by (nonlinear_arith)
        requires
            a * s < (q + 1) * b,
            a * d == c * b,
            b >= 1,
            d >= 1,
            0 <= q,
    {}
    vstd::arithmetic::mul::lemma_mul_nonnegative(q, d);
    vstd::arithmetic::mul::lemma_mul_is_distributive_add_other_way(d, q, 1);
    vstd::arithmetic::div_mod::lemma_fundamental_div_mod_converse(c * s, d, q, c * s - q * d);
}

/// All ratios equal to the first make it both the prefix minimum and the
/// prefix maximum.
proof fn lemma_all_equal_minmax(assets: Seq<GAsset>, toks: Seq<GCoin>, n: int)
    requires
        1 <= n <= toks.len(),
        forall|i: int|
            0 <= i < n ==> multi_ratio(assets, #[trigger] toks[i]) == multi_ratio(
                assets,
                toks[0],
            ),
    ensures
        multi_min_prefix(assets, toks, n) == multi_ratio(assets, toks[0]),
        multi_max_prefix(assets, toks, n) == multi_ratio(assets, toks[0]),
    decreases n,
{
    if n > 1 {
        lemma_all_equal_minmax(assets, toks, n - 1);
    }
}

/// A deposit exactly proportional to the pool balances binds at the common
/// ratio: every coin sits at both the minimum and the maximum ratio, so the
/// join absorbs every coin in full, leaves no remainder, and mints the
/// supply scaled by that ratio.
pub proof fn law_proportional_deposit(assets: Seq<GAsset>, toks: Seq<GCoin>)
    requires
        toks.len() >= 1,
        multi_ok(assets, toks),
        forall|i: int| 0 <= i < toks.len() ==> (#[trigger] toks[i]).amount >= 0,
        forall|i: int|
            0 <= i < toks.len() ==> (#[trigger] toks[i]).amount * assets[denom_idx(
                assets,
                toks[0].denom,
            )].balance.amount == toks[0].amount * assets[denom_idx(
                assets,
                toks[i].denom,
            )].balance.amount,
    ensures
        multi_min(assets, toks) == multi_ratio(assets, toks[0]),
        multi_min(assets, toks) == multi_max(assets, toks),
{
    assert forall|i: int|
        0 <= i < toks.len() implies multi_ratio(assets, #[trigger] toks[i]) == multi_ratio(
        assets,
        toks[0],
    ) by {
        assert(has_denom(assets, toks[i].denom) && assets[denom_idx(
            assets,
            toks[i].denom,
        )].balance.amount > 0);
        assert(has_denom(assets, toks[0].denom) && assets[denom_idx(
            assets,
            toks[0].denom,
        )].balance.amount > 0);
        lemma_ratio_cross(
            toks[i].amount,
            assets[denom_idx(assets, toks[i].denom)].balance.amount,
            toks[0].amount,
            assets[denom_idx(assets, toks[0].denom)].balance.amount,
        );
    }
    lemma_all_equal_minmax(assets, toks, toks.len() as int);
}

/// A remainder entry anywhere in the prefix makes the remainder list
/// non-empty.
proof fn lemma_rem_prefix_nonempty(assets: Seq<GAsset>, toks: Seq<GCoin>, m: int, n: int, j: int)
    requires
        0 <= j < n,
        multi_ratio(assets, toks[j]) != m,
        toks[j].amount - multi_used(assets, toks, m, j) != 0,
    ensures
        multi_rem_prefix(assets, toks, m, n).len() >= 1,
    decreases n,
{
    if j < n - 1 {
        lemma_rem_prefix_nonempty(assets, toks, m, n - 1, j);
    }
}

/// A deposit with one coin above the binding ratio keeps a remainder for
/// exactly the coins above it: coins at the binding ratio are absorbed in
/// full (their ratio being exact), coins above it keep a positive
/// remainder, and absorbed plus remainder always re-adds to the amount
/// brought in.
pub proof fn law_excess_deposit(assets: Seq<GAsset>, toks: Seq<GCoin>)
    requires
        toks.len() >= 1,
        multi_ok(assets, toks),
        forall|i: int| 0 <= i < toks.len() ==> (#[trigger] toks[i]).amount >= 0,
        forall|i: int|
            0 <= i < toks.len() && multi_ratio(assets, #[trigger] toks[i]) == multi_min(
                assets,
                toks,
            ) ==> (toks[i].amount * (SCALE as int)) % assets[denom_idx(
                assets,
                toks[i].denom,
            )].balance.amount == 0,
    ensures
        forall|i: int|
            0 <= i < toks.len() && multi_ratio(assets, #[trigger] toks[i]) == multi_min(
                assets,
                toks,
            ) ==> multi_used(assets, toks, multi_min(assets, toks), i) == toks[i].amount,
        forall|i: int|
            0 <= i < toks.len() && multi_ratio(assets, #[trigger] toks[i]) != multi_min(
                assets,
                toks,
            ) ==> multi_ratio(assets, toks[i]) > multi_min(assets, toks) && 0 < toks[i].amount
                - multi_used(assets, toks, multi_min(assets, toks), i),
        multi_min(assets, toks) != multi_max(assets, toks) ==> multi_rem_prefix(
            assets,
            toks,
            multi_min(assets, toks),
            toks.len() as int,
        ).len() >= 1,
{
    let m = multi_min(assets, toks);
    let s: int = SCALE as int;
    assert(m >= 0) by {
        lemma_min_prefix_attained(assets, toks, toks.len() as int);
        let j = choose|j: int|
            0 <= j < toks.len() && multi_ratio(assets, #[trigger] toks[j]) == multi_min_prefix(
                assets,
                toks,
                toks.len() as int,
            );
        assert(has_denom(assets, toks[j].denom) && assets[denom_idx(
            assets,
            toks[j].denom,
        )].balance.amount > 0);
        vstd::arithmetic::mul::lemma_mul_nonnegative(toks[j].amount, s);
        vstd::arithmetic::div_mod::lemma_div_pos_is_pos(
            toks[j].amount * s,
            assets[denom_idx(assets, toks[j].denom)].balance.amount,
        );
    }
    assert forall|i: int|
        0 <= i < toks.len() && multi_ratio(assets, #[trigger] toks[i]) == m implies multi_used(
        assets,
        toks,
        m,
        i,
    ) == toks[i].amount by {
        assert(has_denom(assets, toks[i].denom) && assets[denom_idx(
            assets,
            toks[i].denom,
        )].balance.amount > 0);
        let bal = assets[denom_idx(assets, toks[i].denom)].balance.amount;
        let amt = toks[i].amount;
        vstd::arithmetic::div_mod::lemma_fundamental_div_mod(amt * s, bal);
        assert(m * bal == amt * s) by {
            assert(amt * s == bal * (amt * s / bal));
            vstd::arithmetic::mul::lemma_mul_is_commutative(bal, amt * s / bal);
        }
        vstd::arithmetic::mul::lemma_mul_nonnegative(amt, s);
        vstd::arithmetic::div_mod::lemma_div_by_multiple(amt, s);
        vstd::arithmetic::mul::lemma_mul_is_commutative(amt, s);
    }
    assert forall|i: int|
        0 <= i < toks.len() && multi_ratio(assets, #[trigger] toks[i]) != m implies multi_ratio(
        assets,
        toks[i],
    ) > m && 0 < toks[i].amount - multi_used(assets, toks, m, i) by {
        assert(has_denom(assets, toks[i].denom) && assets[denom_idx(
            assets,
            toks[i].denom,
        )].balance.amount > 0);
        lemma_min_prefix_le(assets, toks, toks.len() as int, i);
        lemma_excess_leaves_remainder(
            m,
            toks[i].amount,
            assets[denom_idx(assets, toks[i].denom)].balance.amount,
        );
    }
    if m != multi_max(assets, toks) {
        lemma_max_prefix_attained(assets, toks, toks.len() as int);
        let j = choose|j: int|
            0 <= j < toks.len() && multi_ratio(assets, #[trigger] toks[j]) == multi_max(
                assets,
                toks,
            );
        lemma_rem_prefix_nonempty(assets, toks, m, toks.len() as int, j);
    }
}

/// Mutating a pool through `add_asset` or `subtract_asset` keeps the pool
/// invariant: the weight split, the denomination set and the share token are
/// untouched by balance updates.
pub proof fn law_mutation_preserves_wf(before: GPool, after: GPool, i: int, amt: int)
    requires
        before.wf(),
        0 <= i < before.assets.len(),
        after == (GPool {
            assets: before.assets.update(
                i,
                GAsset {
                    balance: GCoin { denom: before.assets[i].balance.denom, amount: amt },
                    ..before.assets[i]
                },
            ),
            ..before
        }),
    ensures
        after.wf(),
        sum_weights(after.assets) == 100,
{
    law_weight_sum_preserved(before.assets, after.assets, i, amt);
    assert(forall|k: int|
        0 <= k < after.assets.len() ==> #[trigger] after.assets[k].balance.denom
            == before.assets[k].balance.denom);
}

/// Adding and subtracting the same coin is a round trip: the net change to
/// every balance is zero.
pub proof fn law_add_subtract_round_trip(start: GPool, mid: GPool, end: GPool, i: int, amt: int)
    requires
        0 <= i < start.assets.len(),
        mid == (GPool {
            assets: start.assets.update(
                i,
                GAsset {
                    balance: GCoin {
                        denom: start.assets[i].balance.denom,
                        amount: start.assets[i].balance.amount + amt,
                    },
                    ..start.assets[i]
                },
            ),
            ..start
        }),
        end == (GPool {
            assets: mid.assets.update(
                i,
                GAsset {
                    balance: GCoin {
                        denom: mid.assets[i].balance.denom,
                        amount: mid.assets[i].balance.amount - amt,
                    },
                    ..mid.assets[i]
                },
            ),
            ..mid
        }),
    ensures
        end.assets =~= start.assets,
        end == start,
{
    assert(end.assets =~= start.assets);
}

} // verus!
