//! Requests, packets, orders and effects of the cross-chain protocol.
//!
//! A handler takes a request and the current contract state and returns an
//! outcome: the updated state (through `&mut`), an outbound packet for the
//! relay boundary, and token-movement effects for the ledger.  Encoding,
//! transport and the ledger itself stay outside the crate.

use vstd::prelude::*;

verus! {

use crate::market::{Coin, GCoin, PoolAsset};

/// The nine operation kinds a packet can carry, plus the unspecified tag.
#[derive(Clone, Copy, Debug, PartialEq, Eq, Structural)]
pub enum SwapMessageType {
    Unspecified,
    MakePool,
    TakePool,
    CancelPool,
    SingleAssetDeposit,
    MakeMultiDeposit,
    TakeMultiDeposit,
    CancelMultiDeposit,
    MultiWithdraw,
    LeftSwap,
    RightSwap,
}

/// Deposit-order lifecycle status.
#[derive(Clone, Copy, Debug, PartialEq, Eq, Structural)]
pub enum OrderStatus {
    Pending,
    Complete,
    Cancelled,
}

/// Direction of a swap request: exact-in or exact-out.
#[allow(non_camel_case_types)]
#[derive(Clone, Copy, Debug, PartialEq, Eq, Structural)]
pub enum SwapMsgType {
    LEFT,
    RIGHT,
}

/// A pending two-party deposit: the maker's coin is escrowed locally, the
/// taker's coin arrives with the take step.
#[derive(Clone, Debug)]
pub struct MultiAssetDepositOrder {
    pub id: u64,
    pub chain_id: String,
    pub pool_id: String,
    pub source_maker: String,
    pub destination_taker: String,
    pub deposits: Vec<Coin>,
    pub status: OrderStatus,
    pub created_at: u64,
}

/// Ghost image of a deposit order.
pub ghost struct GOrder {
    pub id: int,
    pub chain_id: Seq<char>,
    pub pool_id: Seq<char>,
    pub source_maker: Seq<char>,
    pub destination_taker: Seq<char>,
    pub deposits: Seq<GCoin>,
    pub status: OrderStatus,
    pub created_at: int,
}

impl View for MultiAssetDepositOrder {
    type V = GOrder;

    open spec fn view(&self) -> GOrder {
        GOrder {
            id: self.id as int,
            chain_id: self.chain_id@,
            pool_id: self.pool_id@,
            source_maker: self.source_maker@,
            destination_taker: self.destination_taker@,
            deposits: self.deposits@.map_values(|c: Coin| c@),
            status: self.status,
            created_at: self.created_at as int,
        }
    }
}

impl MultiAssetDepositOrder {
    /// Deep copy of the order.
    pub fn dup(&self) -> (o: MultiAssetDepositOrder)
        ensures
            o@ == self@,
    {
        let mut deposits: Vec<Coin> = Vec::new();
        let mut i: usize = 0;
        while i < self.deposits.len()
            invariant
                i <= self.deposits.len(),
                deposits@.len() == i,
                forall|k: int| 0 <= k < i ==> (#[trigger] deposits@[k])@ == self.deposits@[k]@,
            decreases self.deposits.len() - i,
        {
            deposits.push(self.deposits[i].dup());
            i = i + 1;
        }
        let o = MultiAssetDepositOrder {
            id: self.id,
            chain_id: self.chain_id.clone(),
            pool_id: self.pool_id.clone(),
            source_maker: self.source_maker.clone(),
            destination_taker: self.destination_taker.clone(),
            deposits,
            status: self.status,
            created_at: self.created_at,
        };
        proof {
            assert(o@.deposits =~= self@.deposits);
        }
        o
    }
}

/// Process-wide configuration: the monotonic order-id generator and the
/// code id of the share-token contract.
#[derive(Clone, Copy, Debug, PartialEq, Eq, Structural)]
pub struct Config {
    pub counter: u64,
    pub token_code_id: u64,
}

/// Precomputed state change carried in a packet and trusted by the
/// receiving side for the arithmetic-heavy branches.
#[derive(Clone, Debug)]
pub struct StateChange {
    pub in_tokens: Vec<Coin>,
    pub out_tokens: Vec<Coin>,
    pub pool_tokens: Vec<Coin>,
    pub pool_id: Option<String>,
    pub multi_deposit_order_id: Option<u64>,
    pub source_chain_id: Option<String>,
}

/// One weighted leg of a deposit request: who sends it and what.
#[derive(Clone, Debug)]
pub struct DepositAsset {
    pub sender: String,
    pub balance: Coin,
}

/// Request to open a new pool, escrowing the source-side liquidity.
#[derive(Clone, Debug)]
pub struct MsgMakePoolRequest {
    pub source_port: String,
    pub source_channel: String,
    pub creator: String,
    pub counter_party_creator: String,
    pub liquidity: Vec<PoolAsset>,
    pub swap_fee: u32,
    pub destination_chain_id: String,
}

/// Request by the counterparty creator to accept a proposed pool.
#[derive(Clone, Debug)]
pub struct MsgTakePoolRequest {
    pub pool_id: String,
    pub creator: String,
    pub counter_creator: String,
}

/// Request by the creator to withdraw a not-yet-active pool.
#[derive(Clone, Debug)]
pub struct MsgCancelPoolRequest {
    pub pool_id: String,
}

/// Request to deposit one asset into an active pool.
#[derive(Clone, Debug)]
pub struct MsgSingleAssetDepositRequest {
    pub pool_id: String,
    pub sender: String,
    pub token: Coin,
}

/// Request to open a two-party deposit order.
#[derive(Clone, Debug)]
pub struct MsgMakeMultiAssetDepositRequest {
    pub pool_id: String,
    pub chain_id: String,
    pub deposits: Vec<DepositAsset>,
}

/// Request by the taker to complete a pending deposit order.
#[derive(Clone, Debug)]
pub struct MsgTakeMultiAssetDepositRequest {
    pub pool_id: String,
    pub order_id: u64,
    pub sender: String,
}

/// Request by the taker to withdraw a pending deposit order.
#[derive(Clone, Debug)]
pub struct MsgCancelMultiAssetDepositRequest {
    pub pool_id: String,
    pub order_id: u64,
}

/// Request to redeem share tokens for the underlying assets.
#[derive(Clone, Debug)]
pub struct MsgMultiAssetWithdrawRequest {
    pub pool_id: String,
    pub receiver: String,
    pub counterparty_receiver: String,
    pub pool_token: Coin,
}

/// Request to swap one pool asset for the other.
#[derive(Clone, Debug)]
pub struct MsgSwapRequest {
    pub pool_id: String,
    pub sender: String,
    pub swap_type: SwapMsgType,
    pub token_in: Coin,
    pub token_out: Coin,
    pub slippage: u64,
    pub recipient: String,
}

/// The typed payload of a protocol packet: a closed tagged union of the
/// operation kinds, so that every dispatch over it is checked for
/// exhaustiveness.
#[derive(Clone, Debug)]
pub enum PacketPayload {
    Unspecified,
    MakePool(MsgMakePoolRequest),
    TakePool(MsgTakePoolRequest),
    CancelPool(MsgCancelPoolRequest),
    SingleAssetDeposit(MsgSingleAssetDepositRequest),
    MakeMultiDeposit(MsgMakeMultiAssetDepositRequest),
    TakeMultiDeposit(MsgTakeMultiAssetDepositRequest),
    CancelMultiDeposit(MsgCancelMultiAssetDepositRequest),
    MultiWithdraw(MsgMultiAssetWithdrawRequest),
    Swap(MsgSwapRequest),
}

/// A protocol packet: the typed request plus the sender-precomputed state
/// change.
#[derive(Clone, Debug)]
pub struct IBCSwapPacketData {
    pub payload: PacketPayload,
    pub state_change: Option<StateChange>,
}

impl IBCSwapPacketData {
    /// The wire-level tag of this packet's payload.
    pub fn msg_type(&self) -> (t: SwapMessageType)
        ensures
            t == self.payload.msg_type_spec(),
    {
        match &self.payload {
            PacketPayload::Unspecified => SwapMessageType::Unspecified,
            PacketPayload::MakePool(_) => SwapMessageType::MakePool,
            PacketPayload::TakePool(_) => SwapMessageType::TakePool,
            PacketPayload::CancelPool(_) => SwapMessageType::CancelPool,
            PacketPayload::SingleAssetDeposit(_) => SwapMessageType::SingleAssetDeposit,
            PacketPayload::MakeMultiDeposit(_) => SwapMessageType::MakeMultiDeposit,
            PacketPayload::TakeMultiDeposit(_) => SwapMessageType::TakeMultiDeposit,
            PacketPayload::CancelMultiDeposit(_) => SwapMessageType::CancelMultiDeposit,
            PacketPayload::MultiWithdraw(_) => SwapMessageType::MultiWithdraw,
            PacketPayload::Swap(m) => match m.swap_type {
                SwapMsgType::LEFT => SwapMessageType::LeftSwap,
                SwapMsgType::RIGHT => SwapMessageType::RightSwap,
            },
        }
    }
}

impl PacketPayload {
    /// The wire-level tag belonging to each payload variant.
    pub open spec fn msg_type_spec(&self) -> SwapMessageType {
        match self {
            PacketPayload::Unspecified => SwapMessageType::Unspecified,
            PacketPayload::MakePool(_) => SwapMessageType::MakePool,
            PacketPayload::TakePool(_) => SwapMessageType::TakePool,
            PacketPayload::CancelPool(_) => SwapMessageType::CancelPool,
            PacketPayload::SingleAssetDeposit(_) => SwapMessageType::SingleAssetDeposit,
            PacketPayload::MakeMultiDeposit(_) => SwapMessageType::MakeMultiDeposit,
            PacketPayload::TakeMultiDeposit(_) => SwapMessageType::TakeMultiDeposit,
            PacketPayload::CancelMultiDeposit(_) => SwapMessageType::CancelMultiDeposit,
            PacketPayload::MultiWithdraw(_) => SwapMessageType::MultiWithdraw,
            PacketPayload::Swap(m) => if m.swap_type == SwapMsgType::LEFT {
                SwapMessageType::LeftSwap
            } else {
                SwapMessageType::RightSwap
            },
        }
    }
}


/// The inbound command union of the contract: one variant per operation.
#[derive(Clone, Debug)]
pub enum ExecuteMsg {
    MakePool(MsgMakePoolRequest),
    TakePool(MsgTakePoolRequest),
    CancelPool(MsgCancelPoolRequest),
    SingleAssetDeposit(MsgSingleAssetDepositRequest),
    MakeMultiAssetDeposit(MsgMakeMultiAssetDepositRequest),
    CancelMultiAssetDeposit(MsgCancelMultiAssetDepositRequest),
    TakeMultiAssetDeposit(MsgTakeMultiAssetDepositRequest),
    MultiAssetWithdraw(MsgMultiAssetWithdrawRequest),
    Swap(MsgSwapRequest),
}

/// The read-only query union of the contract.
#[derive(Clone, Debug)]
pub enum QueryMsg {
    Config,
    InterchainPool { pool_id: String },
    InterchainPoolList { start: usize, limit: Option<u32> },
    Order { pool_id: String, order_id: u64 },
    OrderList { start: usize, limit: Option<u32> },
    PoolAddressByToken { pool_id: String },
    PoolTokenList { start: usize, limit: Option<u32> },
    LeftSwap { pool_id: String, token_in: Coin, token_out: Coin },
    RightSwap { pool_id: String, token_in: Coin, token_out: Coin },
    QueryActiveOrders { source_maker: String, destination_taker: String, pool_id: String },
    Rate { pool_id: String, amount: u128 },
}

/// The typed answers of the query union.
#[derive(Clone, Debug)]
pub enum QueryResponse {
    Config(Config),
    Pool(crate::market::InterchainLiquidityPool),
    PoolList(Vec<crate::market::InterchainLiquidityPool>),
    Order(MultiAssetDepositOrder),
    OrderList(Vec<MultiAssetDepositOrder>),
    PoolAddress(String),
    PoolTokenList(Vec<String>),
    SwapQuote(Coin),
    Rate(Vec<Coin>),
}

/// A token-movement primitive the ledger must perform on the library's
/// behalf; the core only decides them.
#[derive(Clone, Debug)]
pub enum TokenEffect {
    /// Instantiate the share-token contract for a new pool.
    InstantiateLpToken { pool_id: String },
    /// Mint share tokens to a recipient.
    MintLp { recipient: String, lp_token: String, amount: u128 },
    /// Burn share tokens held by the contract.
    BurnLp { lp_token: String, amount: u128 },
    /// Transfer a native coin to a recipient.
    SendCoin { recipient: String, coin: Coin },
    /// Transfer share tokens to a recipient.
    SendLp { recipient: String, lp_token: String, amount: u128 },
    /// Pull share tokens from their owner into the contract.
    TransferLpFromUser { owner: String, lp_token: String, amount: u128 },
}

/// Environment of the current call: which chain executes it and at what
/// height.
#[derive(Clone, Debug)]
pub struct EnvInfo {
    pub chain_id: String,
    pub block_height: u64,
}

/// The caller and the funds attached to the call.
#[derive(Clone, Debug)]
pub struct MsgInfo {
    pub sender: String,
    pub funds: Vec<Coin>,
}

/// Result of an initiating handler: the channel to send on, the packet to
/// send, and the ledger effects to attach.
#[derive(Clone, Debug)]
pub struct ExecuteOutcome {
    pub channel: String,
    pub packet: IBCSwapPacketData,
    pub effects: Vec<TokenEffect>,
}

/// Result of a successfully received packet: the ledger effects to attach
/// to the success acknowledgement.
#[derive(Clone, Debug)]
pub struct ReceiveOutcome {
    pub effects: Vec<TokenEffect>,
}

/// Whether some coin of the attached funds matches the declared coin
/// exactly, denomination and amount both.
pub open spec fn funds_cover(funds: Seq<GCoin>, want: GCoin) -> bool {
    exists|i: int|
        0 <= i < funds.len() && (#[trigger] funds[i]).denom == want.denom && funds[i].amount
            == want.amount
}

/// Scans the attached funds for an exact match of the declared coin.
pub fn find_exact_funds(funds: &Vec<Coin>, want: &Coin) -> (r: bool)
    ensures
        r == funds_cover(funds@.map_values(|c: Coin| c@), want@),
{
    let ghost gfunds = funds@.map_values(|c: Coin| c@);
    let n: usize = funds.len();
    let mut i: usize = 0;
    while i < n
        invariant
            n == funds.len(),
            gfunds == funds@.map_values(|c: Coin| c@),
            i <= n,
            forall|k: int|
                0 <= k < i ==> !((#[trigger] gfunds[k]).denom == want@.denom && gfunds[k].amount
                    == want@.amount),
        decreases n - i,
    {
        if funds[i].denom == want.denom && funds[i].amount == want.amount {
            proof {
                let ghost ii = i as int;
                assert((gfunds[ii]).denom == want@.denom && gfunds[ii].amount == want@.amount);
            }
            return true;
        }
        i = i + 1;
    }
    proof {
        assert(!funds_cover(gfunds, want@)) by {
            if funds_cover(gfunds, want@) {
                let j = choose|j: int|
                    0 <= j < gfunds.len() && (#[trigger] gfunds[j]).denom == want@.denom
                        && gfunds[j].amount == want@.amount;
                assert(!((gfunds[j]).denom == want@.denom && gfunds[j].amount == want@.amount));
            }
        }
    }
    false
}

} // verus!
