//! Core of an interchain automated market maker: a weighted liquidity-pool
//! model, fixed-point pricing mathematics, and the cross-chain make/take/cancel
//! protocol state machine that keeps two mirrored pool copies consistent.
//!
//! The crate holds the decision logic only: every function here is a pure
//! state transition or computation over plain values.  Message encoding,
//! ledger storage and packet transport live outside the crate.

pub mod ack;
pub mod error;
pub mod handlers;
pub mod market;
pub mod math;
pub mod queries;
pub mod receive;
pub mod state;
pub mod types;

pub use math::FEE_PRECISION;
