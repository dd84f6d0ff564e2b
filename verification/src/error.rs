//! Error taxonomy of the library.
//!
//! Validation, not-found and state-conflict errors are rejected before any
//! state mutation; arithmetic errors signal a computation whose true result is
//! undefined or does not fit the 128-bit range.

use vstd::prelude::*;

verus! {

#[derive(Clone, Copy, Debug, PartialEq, Eq, Structural)]
pub enum ContractError {
    /// An arithmetic result does not fit in 128 bits.
    Overflow,
    /// The invariant solver was asked for an undefined quantity (zero
    /// post-trade balance, zero weight denominator, empty pool or supply).
    MathUndefined,
    /// No pool asset carries the requested denomination.
    DenomNotFound,
    /// No pool asset sits on the requested side.
    AssetSideNotFound,
    /// A supply operation named a coin other than the pool's own share token.
    DenomMismatch,
    /// Subtracting more of an asset than the pool holds.
    InsufficientBalance,
    /// Burning more shares than are outstanding.
    InsufficientSupply,
    /// The deposited denomination is not part of the pool.
    AssetNotFound,
    /// Single-asset deposits require an already active pool.
    PoolNotActive,
    /// A withdrawal would pay out more of an asset than the pool holds.
    InvalidWithdrawAmount,
    /// The referenced pool does not exist.
    PoolNotFound,
    /// A pool with the derived identifier already exists.
    PoolAlreadyExists,
    /// The pool is not in the status the requested transition demands.
    InvalidStatus,
    /// The caller is not the party entitled to this operation.
    InvalidSender,
    /// Swaps and deposits demand an active pool.
    NotReadyForSwap,
    /// The attached funds do not match the declared coin exactly.
    FundsMismatch,
    /// The share token of the pool has not been instantiated yet.
    LpTokenNotInitialized,
    /// A share token already exists for the derived pool identifier.
    LpTokenAlreadyExists,
    /// A declared amount was zero or otherwise unusable.
    InvalidAmount,
    /// A pool proposal must name exactly two assets.
    InvalidAssetInput,
    /// The proposed asset weights do not split one hundred percent.
    InvalidWeightPair,
    /// The proposed assets share a denomination.
    InvalidDenomPair,
    /// The proposed fee rate lies outside the basis-point range.
    InvalidFeeRate,
    /// The slippage tolerance lies outside the basis-point range.
    InvalidSlippage,
    /// The computed output falls short of the slippage floor.
    SlippageExceeded,
    /// The (maker, pool, taker) triple already has a live deposit order.
    ErrPreviousOrderNotCompleted,
    /// The order has already reached a terminal status.
    ErrOrderAlreadyCompleted,
    /// The referenced deposit order does not exist.
    ErrOrderNotFound,
    /// The caller may not take this deposit order.
    ErrFailedMultiAssetDeposit,
    /// An inbound packet lacks a field its operation kind requires.
    MalformedPacket,
}

} // verus!
