use ics101::ack::{on_packet_failure, on_packet_success};
use ics101::error::ContractError;
use ics101::handlers::{
    cancel_pool, derive_pool_id, execute, instantiate, make_multi_asset_deposit, make_pool,
    set_pool_token, swap, take_multi_asset_deposit, take_pool,
};
use ics101::market::{Coin, PoolAsset, PoolSide, PoolStatus, INIT_LP_TOKENS, MULTIPLIER};
use ics101::receive::{
    do_ibc_packet_receive, on_received_take_multi_deposit,
};
use ics101::state::{ActiveOrderKey, ContractState};
use ics101::types::{
    DepositAsset, EnvInfo, ExecuteMsg, MsgCancelPoolRequest, MsgInfo,
    MsgMakeMultiAssetDepositRequest, MsgMakePoolRequest, MsgSwapRequest,
    MsgTakeMultiAssetDepositRequest, MsgTakePoolRequest, MultiAssetDepositOrder, OrderStatus,
    PacketPayload, SwapMessageType, SwapMsgType, TokenEffect,
};

fn coin(denom: &str, amount: u128) -> Coin {
    Coin { denom: denom.to_string(), amount }
}

fn env(chain: &str) -> EnvInfo {
    EnvInfo { chain_id: chain.to_string(), block_height: 7 }
}

fn info(sender: &str, funds: Vec<Coin>) -> MsgInfo {
    MsgInfo { sender: sender.to_string(), funds }
}

fn make_pool_msg() -> MsgMakePoolRequest {
    MsgMakePoolRequest {
        source_port: "transfer".to_string(),
        source_channel: "channel-0".to_string(),
        creator: "alice".to_string(),
        counter_party_creator: "bob".to_string(),
        liquidity: vec![
            PoolAsset {
                side: PoolSide::SOURCE,
                balance: coin("foo", 100),
                weight: 50,
                decimal: 18,
            },
            PoolAsset {
                side: PoolSide::DESTINATION,
                balance: coin("bar", 100),
                weight: 50,
                decimal: 18,
            },
        ],
        swap_fee: 300,
        destination_chain_id: "chain-b".to_string(),
    }
}

/// The full cross-chain pool creation: make on A, mirror on B, take on B,
/// activate on A by receipt, activate on B by acknowledgement.
#[test]
fn full_pool_creation_flow() {
    let mut a = instantiate(1);
    let mut b = instantiate(1);
    let env_a = env("chain-a");
    let env_b = env("chain-b");

    let out = make_pool(&mut a, &env_a, &info("alice", vec![coin("foo", 100)]), make_pool_msg())
        .unwrap();
    assert_eq!(a.pools.len(), 1);
    assert!(matches!(a.pools[0].status, PoolStatus::Initialized));
    assert_eq!(a.pools[0].supply.amount, 0);
    let pool_id = a.pools[0].id.clone();
    assert!(matches!(
        out.effects[0],
        TokenEffect::InstantiateLpToken { .. }
    ));
    // The share-token instantiation reply records the token address.
    set_pool_token(&mut a, "lp-token-a".to_string()).unwrap();
    assert_eq!(a.pool_tokens.len(), 1);

    // Chain B receives the make packet and mirrors the pool, sides
    // flipped.
    let rcv = do_ibc_packet_receive(&mut b, &env_b, &"channel-1".to_string(), out.packet);
    rcv.unwrap();
    assert_eq!(b.pools.len(), 1);
    assert_eq!(b.pools[0].id, pool_id);
    assert!(matches!(b.pools[0].assets[0].side, PoolSide::DESTINATION));
    assert!(matches!(b.pools[0].assets[1].side, PoolSide::SOURCE));

    // The counterparty creator takes the pool on B.
    let take_msg = MsgTakePoolRequest {
        pool_id: pool_id.clone(),
        creator: "alice".to_string(),
        counter_creator: "bob".to_string(),
    };
    let out2 = take_pool(&mut b, &env_b, &info("bob", vec![coin("bar", 100)]), take_msg).unwrap();
    // The take instantiates the taker chain's own share token; the reply
    // records its address.
    assert!(matches!(
        out2.effects[0],
        TokenEffect::InstantiateLpToken { .. }
    ));
    set_pool_token(&mut b, "lp-token-b".to_string()).unwrap();

    // Chain A receives the take packet: first mint, pool active.
    let rcv2 = do_ibc_packet_receive(&mut a, &env_a, &"channel-1".to_string(), out2.packet.clone());
    let outcome = rcv2.unwrap();
    assert!(matches!(a.pools[0].status, PoolStatus::Active));
    assert_eq!(a.pools[0].supply.amount, INIT_LP_TOKENS * MULTIPLIER);
    assert!(matches!(
        outcome.effects[0],
        TokenEffect::MintLp { amount, .. } if amount == INIT_LP_TOKENS * MULTIPLIER
    ));

    // The success acknowledgement activates B's copy the same way.
    on_packet_success(&mut b, &env_b, out2.packet).unwrap();
    assert!(matches!(b.pools[0].status, PoolStatus::Active));
    assert_eq!(b.pools[0].supply.amount, INIT_LP_TOKENS * MULTIPLIER);
}

/// Cancelling a pool in `Active` status fails; only `Initialized` pools
/// may be cancelled.
#[test]
fn cancel_active_pool_is_rejected() {
    let mut a = instantiate(1);
    let env_a = env("chain-a");
    make_pool(&mut a, &env_a, &info("alice", vec![coin("foo", 100)]), make_pool_msg()).unwrap();
    let pool_id = a.pools[0].id.clone();

    // Wrong sender first, while still cancellable.
    let msg = MsgCancelPoolRequest { pool_id: pool_id.clone() };
    assert_eq!(
        cancel_pool(&mut a, &env_a, &info("mallory", vec![]), msg.clone()).unwrap_err(),
        ContractError::InvalidSender
    );
    // The creator may cancel an initialized pool.
    assert!(cancel_pool(&mut a, &env_a, &info("alice", vec![]), msg.clone()).is_ok());

    // Once active, cancellation is rejected.
    a.pools[0].status = PoolStatus::Active;
    assert_eq!(
        cancel_pool(&mut a, &env_a, &info("alice", vec![]), msg).unwrap_err(),
        ContractError::InvalidStatus
    );
}

fn active_pool_state() -> (ContractState, String) {
    let mut a = instantiate(1);
    let env_a = env("chain-a");
    make_pool(&mut a, &env_a, &info("alice", vec![coin("foo", 100)]), make_pool_msg()).unwrap();
    let pool_id = a.pools[0].id.clone();
    set_pool_token(&mut a, "lp-token-a".to_string()).unwrap();
    a.pools[0].status = PoolStatus::Active;
    a.pools[0].supply.amount = 1000;
    (a, pool_id)
}

/// Taking the same deposit order twice: the second take fails as already
/// completed and mints nothing.
#[test]
fn double_take_of_a_deposit_order_does_not_double_mint() {
    let (mut a, pool_id) = active_pool_state();
    let env_a = env("chain-a");

    // A pending order, mirrored into the store with its index entry.
    a.orders.push(MultiAssetDepositOrder {
        id: 1,
        chain_id: "chain-a".to_string(),
        pool_id: pool_id.clone(),
        source_maker: "alice".to_string(),
        destination_taker: "bob".to_string(),
        deposits: vec![coin("foo", 50), coin("bar", 50)],
        status: OrderStatus::Pending,
        created_at: 7,
    });
    a.active_orders.push(ActiveOrderKey {
        source_maker: "alice".to_string(),
        pool_id: pool_id.clone(),
        destination_taker: "bob".to_string(),
        order_id: 1,
    });
    a.config.counter = 1;

    let take = MsgTakeMultiAssetDepositRequest {
        pool_id: pool_id.clone(),
        order_id: 1,
        sender: "bob".to_string(),
    };
    let change = ics101::types::StateChange {
        in_tokens: vec![],
        out_tokens: vec![],
        pool_tokens: vec![coin(&pool_id, 500)],
        pool_id: None,
        multi_deposit_order_id: Some(1),
        source_chain_id: None,
    };
    let outcome = on_received_take_multi_deposit(&mut a, &env_a, take.clone(), change.clone())
        .unwrap();
    assert!(matches!(a.orders[0].status, OrderStatus::Complete));
    assert_eq!(a.active_orders.len(), 0);
    assert_eq!(a.pools[0].supply.amount, 1500);
    assert_eq!(outcome.effects.len(), 1);

    // The second take fails and changes nothing.
    let supply_before = a.pools[0].supply.amount;
    let err = on_received_take_multi_deposit(&mut a, &env_a, take.clone(), change).unwrap_err();
    assert_eq!(err, ContractError::ErrOrderAlreadyCompleted);
    assert_eq!(a.pools[0].supply.amount, supply_before);

    // The initiating side refuses a completed order too.
    assert_eq!(
        take_multi_asset_deposit(&mut a, &env_a, &info("bob", vec![coin("bar", 50)]), take)
            .unwrap_err(),
        ContractError::ErrOrderAlreadyCompleted
    );
}

#[test]
fn make_multi_deposit_creates_a_pending_order() {
    let (mut a, pool_id) = active_pool_state();
    let env_a = env("chain-a");
    let msg = MsgMakeMultiAssetDepositRequest {
        pool_id: pool_id.clone(),
        chain_id: "chain-a".to_string(),
        deposits: vec![
            DepositAsset { sender: "alice".to_string(), balance: coin("foo", 50) },
            DepositAsset { sender: "bob".to_string(), balance: coin("bar", 50) },
        ],
    };
    let out = make_multi_asset_deposit(
        &mut a,
        &env_a,
        &info("alice", vec![coin("foo", 50)]),
        msg.clone(),
    )
    .unwrap();
    assert_eq!(a.orders.len(), 1);
    assert_eq!(a.orders[0].id, 1);
    assert!(matches!(a.orders[0].status, OrderStatus::Pending));
    assert_eq!(a.active_orders.len(), 1);
    assert_eq!(a.config.counter, 1);
    assert_eq!(out.packet.msg_type(), SwapMessageType::MakeMultiDeposit);

    // A second order by the same triple is refused while the first is
    // live.
    assert_eq!(
        make_multi_asset_deposit(&mut a, &env_a, &info("alice", vec![coin("foo", 50)]), msg)
            .unwrap_err(),
        ContractError::ErrPreviousOrderNotCompleted
    );

    // A delivery failure rolls the order back.
    let fail_packet = out.packet;
    on_packet_failure(&mut a, &env_a, fail_packet).unwrap();
    assert_eq!(a.orders.len(), 0);
    assert_eq!(a.active_orders.len(), 0);
}

#[test]
fn swap_respects_the_slippage_floor() {
    let (mut a, pool_id) = active_pool_state();
    let env_a = env("chain-a");
    // Pool holds 100 foo / 100 bar; swapping 10 foo yields about 9.09
    // bar at raw 18-decimal scale, far below a declared 20-bar
    // expectation.
    let msg = MsgSwapRequest {
        pool_id: pool_id.clone(),
        sender: "alice".to_string(),
        swap_type: SwapMsgType::LEFT,
        token_in: coin("foo", 10),
        token_out: coin("bar", 20_000_000_000_000_000_000),
        slippage: 100,
        recipient: "alice".to_string(),
    };
    assert_eq!(
        swap(&mut a, &env_a, &info("alice", vec![coin("foo", 10)]), msg.clone()).unwrap_err(),
        ContractError::SlippageExceeded
    );
    let relaxed = MsgSwapRequest { token_out: coin("bar", 0), ..msg.clone() };
    let out = swap(&mut a, &env_a, &info("alice", vec![coin("foo", 10)]), relaxed).unwrap();
    assert_eq!(out.packet.msg_type(), SwapMessageType::LeftSwap);
    let sc = out.packet.state_change.unwrap();
    assert_eq!(sc.out_tokens[0].denom, "bar");
    assert!(sc.out_tokens[0].amount > 0);

    let bad = MsgSwapRequest { slippage: 10001, ..msg };
    assert_eq!(
        swap(&mut a, &env_a, &info("alice", vec![coin("foo", 10)]), bad).unwrap_err(),
        ContractError::InvalidSlippage
    );
}

#[test]
fn execute_dispatches_by_variant() {
    let mut a = instantiate(9);
    let env_a = env("chain-a");
    let r = execute(
        &mut a,
        &env_a,
        &info("alice", vec![coin("foo", 100)]),
        ExecuteMsg::MakePool(make_pool_msg()),
    );
    assert!(r.is_ok());
    assert_eq!(a.pools.len(), 1);
    let pid = a.pools[0].id.clone();
    let r2 = execute(
        &mut a,
        &env_a,
        &info("carol", vec![]),
        ExecuteMsg::CancelPool(MsgCancelPoolRequest { pool_id: pid }),
    );
    assert_eq!(r2.unwrap_err(), ContractError::InvalidSender);
}

#[test]
fn pool_id_is_order_insensitive() {
    let foo = "foo".to_string();
    let bar = "bar".to_string();
    let ca = "chain-a".to_string();
    let cb = "chain-b".to_string();
    let id1 = derive_pool_id(&foo, &bar, &ca, &cb);
    let id2 = derive_pool_id(&bar, &foo, &ca, &cb);
    assert_eq!(id1, id2);
    assert_eq!(id1, "pool-bar-foo-chain-a-chain-b");
}

#[test]
fn make_pool_validation_and_funds() {
    let mut a = instantiate(1);
    let env_a = env("chain-a");
    // Mismatched funds are rejected before any state change.
    assert_eq!(
        make_pool(&mut a, &env_a, &info("alice", vec![coin("foo", 99)]), make_pool_msg())
            .unwrap_err(),
        ContractError::FundsMismatch
    );
    assert_eq!(a.pools.len(), 0);
    // A weight pair off one hundred percent is rejected.
    let mut bad = make_pool_msg();
    bad.liquidity[0].weight = 60;
    assert_eq!(
        make_pool(&mut a, &env_a, &info("alice", vec![coin("foo", 100)]), bad).unwrap_err(),
        ContractError::InvalidWeightPair
    );
    // A duplicate pool is rejected.
    make_pool(&mut a, &env_a, &info("alice", vec![coin("foo", 100)]), make_pool_msg()).unwrap();
    assert_eq!(
        make_pool(&mut a, &env_a, &info("alice", vec![coin("foo", 100)]), make_pool_msg())
            .unwrap_err(),
        ContractError::PoolAlreadyExists
    );
}

#[test]
fn unspecified_packet_is_a_no_op() {
    let mut a = instantiate(1);
    let env_a = env("chain-a");
    let packet = ics101::types::IBCSwapPacketData {
        payload: PacketPayload::Unspecified,
        state_change: None,
    };
    let out = do_ibc_packet_receive(&mut a, &env_a, &"channel-9".to_string(), packet).unwrap();
    assert_eq!(out.effects.len(), 0);
    assert_eq!(a.pools.len(), 0);
}

/// Each validation and lookup failure surfaces its own error.
#[test]
fn each_rejection_names_its_error() {
    let mut a = instantiate(1);
    let env_a = env("chain-a");

    // A proposal must name exactly two assets.
    let mut one_leg = make_pool_msg();
    one_leg.liquidity.pop();
    assert_eq!(
        make_pool(&mut a, &env_a, &info("alice", vec![coin("foo", 100)]), one_leg).unwrap_err(),
        ContractError::InvalidAssetInput
    );
    // Shared denominations are rejected.
    let mut dup = make_pool_msg();
    dup.liquidity[1].balance.denom = "foo".to_string();
    assert_eq!(
        make_pool(&mut a, &env_a, &info("alice", vec![coin("foo", 100)]), dup).unwrap_err(),
        ContractError::InvalidDenomPair
    );
    // A zero amount is rejected.
    let mut zero = make_pool_msg();
    zero.liquidity[0].balance.amount = 0;
    assert_eq!(
        make_pool(&mut a, &env_a, &info("alice", vec![]), zero).unwrap_err(),
        ContractError::InvalidAmount
    );
    // A fee beyond the basis-point range is rejected.
    let mut fee = make_pool_msg();
    fee.swap_fee = 10001;
    assert_eq!(
        make_pool(&mut a, &env_a, &info("alice", vec![coin("foo", 100)]), fee).unwrap_err(),
        ContractError::InvalidFeeRate
    );

    // Withdrawing without a recorded share token fails.
    make_pool(&mut a, &env_a, &info("alice", vec![coin("foo", 100)]), make_pool_msg()).unwrap();
    let pid = a.pools[0].id.clone();
    let wd = ics101::types::MsgMultiAssetWithdrawRequest {
        pool_id: pid.clone(),
        receiver: "alice".to_string(),
        counterparty_receiver: "bob".to_string(),
        pool_token: coin(&pid, 10),
    };
    assert_eq!(
        ics101::handlers::multi_asset_withdraw(&mut a, &env_a, &info("alice", vec![]), wd)
            .unwrap_err(),
        ContractError::LpTokenNotInitialized
    );

    // A make packet without its state change is malformed.
    let packet = ics101::types::IBCSwapPacketData {
        payload: PacketPayload::MakePool(make_pool_msg()),
        state_change: None,
    };
    assert_eq!(
        do_ibc_packet_receive(&mut a, &env_a, &"channel-1".to_string(), packet).unwrap_err(),
        ContractError::MalformedPacket
    );

    // Cancelling a missing order is reported as such.
    assert_eq!(
        ics101::handlers::cancel_multi_asset_deposit(
            &mut a,
            &env_a,
            &info("bob", vec![]),
            ics101::types::MsgCancelMultiAssetDepositRequest { pool_id: pid.clone(), order_id: 9 },
        )
        .unwrap_err(),
        ContractError::ErrOrderNotFound
    );
}

/// Only the named taker may take an order, and a side lookup on a pool
/// with no such side reports the missing side.
#[test]
fn take_authorization_and_side_lookup() {
    let (mut a, pool_id) = active_pool_state();
    let env_a = env("chain-a");
    a.orders.push(MultiAssetDepositOrder {
        id: 1,
        chain_id: "chain-a".to_string(),
        pool_id: pool_id.clone(),
        source_maker: "alice".to_string(),
        destination_taker: "bob".to_string(),
        deposits: vec![coin("foo", 50), coin("bar", 50)],
        status: OrderStatus::Pending,
        created_at: 7,
    });
    a.active_orders.push(ActiveOrderKey {
        source_maker: "alice".to_string(),
        pool_id: pool_id.clone(),
        destination_taker: "bob".to_string(),
        order_id: 1,
    });
    a.config.counter = 1;
    let take = MsgTakeMultiAssetDepositRequest {
        pool_id: pool_id.clone(),
        order_id: 1,
        sender: "mallory".to_string(),
    };
    assert_eq!(
        take_multi_asset_deposit(&mut a, &env_a, &info("mallory", vec![]), take).unwrap_err(),
        ContractError::ErrFailedMultiAssetDeposit
    );

    let mut one_sided = a.pools[0].clone();
    one_sided.assets[0].side = PoolSide::DESTINATION;
    assert_eq!(
        one_sided.find_asset_by_side(PoolSide::SOURCE).unwrap_err(),
        ContractError::AssetSideNotFound
    );
}

/// Receive-side re-validation: a cancel or a replayed take on an already
/// active pool is rejected and changes nothing.
#[test]
fn active_pool_rejects_cancel_and_replayed_take_on_receive() {
    let (mut a, pool_id) = active_pool_state();
    let env_a = env("chain-a");

    let cancel_packet = ics101::types::IBCSwapPacketData {
        payload: PacketPayload::CancelPool(MsgCancelPoolRequest { pool_id: pool_id.clone() }),
        state_change: None,
    };
    assert_eq!(
        do_ibc_packet_receive(&mut a, &env_a, &"channel-1".to_string(), cancel_packet)
            .unwrap_err(),
        ContractError::InvalidStatus
    );
    assert_eq!(a.pools.len(), 1);

    // A replayed take neither re-activates nor double-mints.
    let supply_before = a.pools[0].supply.amount;
    let take_packet = ics101::types::IBCSwapPacketData {
        payload: PacketPayload::TakePool(MsgTakePoolRequest {
            pool_id: pool_id.clone(),
            creator: "alice".to_string(),
            counter_creator: "bob".to_string(),
        }),
        state_change: None,
    };
    assert_eq!(
        do_ibc_packet_receive(&mut a, &env_a, &"channel-1".to_string(), take_packet.clone())
            .unwrap_err(),
        ContractError::InvalidStatus
    );
    assert_eq!(a.pools[0].supply.amount, supply_before);

    // The same holds for a late success acknowledgement.
    assert_eq!(
        on_packet_success(&mut a, &env_a, take_packet).unwrap_err(),
        ContractError::InvalidStatus
    );
    assert_eq!(a.pools[0].supply.amount, supply_before);
}

/// The taker chain instantiates its own share token on take when none is
/// recorded yet.
#[test]
fn take_pool_instantiates_the_share_token_once() {
    let mut b = instantiate(1);
    let env_b = env("chain-b");
    let out = make_pool(&mut b, &env_b, &info("alice", vec![coin("foo", 100)]), make_pool_msg())
        .unwrap();
    let pool_id = b.pools[0].id.clone();
    // Drop the maker-side marker so the take path stands alone.
    b.temp = None;
    let _ = out;
    let take_msg = MsgTakePoolRequest {
        pool_id: pool_id.clone(),
        creator: "alice".to_string(),
        counter_creator: "bob".to_string(),
    };
    b.pools[0].destination_creator = "bob".to_string();
    let out2 = take_pool(&mut b, &env_b, &info("bob", vec![coin("foo", 100)]), take_msg.clone())
        .unwrap();
    assert_eq!(out2.effects.len(), 1);
    assert!(matches!(
        out2.effects[0],
        TokenEffect::InstantiateLpToken { .. }
    ));
    set_pool_token(&mut b, "lp-token-b".to_string()).unwrap();
    // With the token recorded, a second take emits no instantiation.
    let out3 = take_pool(&mut b, &env_b, &info("bob", vec![coin("foo", 100)]), take_msg).unwrap();
    assert_eq!(out3.effects.len(), 0);
}

/// The redeemed coin must carry the pool's own share denomination.
#[test]
fn withdraw_rejects_a_foreign_denomination() {
    let (mut a, pool_id) = active_pool_state();
    let env_a = env("chain-a");
    let wd = ics101::types::MsgMultiAssetWithdrawRequest {
        pool_id: pool_id.clone(),
        receiver: "alice".to_string(),
        counterparty_receiver: "bob".to_string(),
        pool_token: coin("not-the-pool", 10),
    };
    assert_eq!(
        ics101::handlers::multi_asset_withdraw(&mut a, &env_a, &info("alice", vec![]), wd)
            .unwrap_err(),
        ContractError::DenomMismatch
    );
}

/// A failed make-pool delivery rolls the tentative pool back and refunds
/// the creator's escrow.
#[test]
fn failed_make_pool_rolls_back_and_refunds() {
    let mut a = instantiate(1);
    let env_a = env("chain-a");
    let out = make_pool(&mut a, &env_a, &info("alice", vec![coin("foo", 100)]), make_pool_msg())
        .unwrap();
    assert_eq!(a.pools.len(), 1);
    let effects = on_packet_failure(&mut a, &env_a, out.packet).unwrap();
    assert_eq!(a.pools.len(), 0);
    assert!(matches!(
        &effects[0],
        TokenEffect::SendCoin { recipient, coin }
            if recipient == "alice" && coin.denom == "foo" && coin.amount == 100
    ));
}
