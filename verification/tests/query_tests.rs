use ics101::error::ContractError;
use ics101::handlers::{instantiate, make_pool, set_pool_token};
use ics101::market::{Coin, PoolAsset, PoolSide, PoolStatus};
use ics101::queries::{
    query, query_active_orders, query_config, query_interchain_pool, query_interchain_pool_list,
    query_order, query_pool_address, query_rate,
};
use ics101::state::ActiveOrderKey;
use ics101::types::{
    EnvInfo, MsgInfo, MsgMakePoolRequest, MultiAssetDepositOrder, OrderStatus, QueryMsg,
    QueryResponse,
};

fn coin(denom: &str, amount: u128) -> Coin {
    Coin { denom: denom.to_string(), amount }
}

fn seeded_state() -> (ics101::state::ContractState, String) {
    let mut a = instantiate(42);
    let env_a = EnvInfo { chain_id: "chain-a".to_string(), block_height: 1 };
    let msg = MsgMakePoolRequest {
        source_port: "transfer".to_string(),
        source_channel: "channel-0".to_string(),
        creator: "alice".to_string(),
        counter_party_creator: "bob".to_string(),
        liquidity: vec![
            PoolAsset {
                side: PoolSide::SOURCE,
                balance: coin("foo", 200),
                weight: 50,
                decimal: 18,
            },
            PoolAsset {
                side: PoolSide::DESTINATION,
                balance: coin("bar", 300),
                weight: 50,
                decimal: 18,
            },
        ],
        swap_fee: 300,
        destination_chain_id: "chain-b".to_string(),
    };
    let info = MsgInfo { sender: "alice".to_string(), funds: vec![coin("foo", 200)] };
    make_pool(&mut a, &env_a, &info, msg).unwrap();
    let pool_id = a.pools[0].id.clone();
    set_pool_token(&mut a, "lp-addr".to_string()).unwrap();
    a.pools[0].status = PoolStatus::Active;
    a.pools[0].supply.amount = 100;
    (a, pool_id)
}

#[test]
fn config_and_pool_queries() {
    let (a, pool_id) = seeded_state();
    let c = query_config(&a);
    assert_eq!(c.token_code_id, 42);
    assert_eq!(c.counter, 0);

    let p = query_interchain_pool(&a, &pool_id).unwrap();
    assert_eq!(p.id, pool_id);
    assert_eq!(
        query_interchain_pool(&a, &"missing".to_string()).unwrap_err(),
        ContractError::PoolNotFound
    );

    let list = query_interchain_pool_list(&a, 0, None);
    assert_eq!(list.len(), 1);
    let empty = query_interchain_pool_list(&a, 5, Some(3));
    assert_eq!(empty.len(), 0);

    assert_eq!(query_pool_address(&a, &pool_id).unwrap(), "lp-addr");
}

#[test]
fn order_queries_follow_the_index() {
    let (mut a, pool_id) = seeded_state();
    a.orders.push(MultiAssetDepositOrder {
        id: 1,
        chain_id: "chain-a".to_string(),
        pool_id: pool_id.clone(),
        source_maker: "alice".to_string(),
        destination_taker: "bob".to_string(),
        deposits: vec![coin("foo", 5), coin("bar", 5)],
        status: OrderStatus::Pending,
        created_at: 1,
    });
    a.active_orders.push(ActiveOrderKey {
        source_maker: "alice".to_string(),
        pool_id: pool_id.clone(),
        destination_taker: "bob".to_string(),
        order_id: 1,
    });
    a.config.counter = 1;

    let o = query_order(&a, &pool_id, 1).unwrap();
    assert_eq!(o.id, 1);
    assert_eq!(
        query_order(&a, &pool_id, 2).unwrap_err(),
        ContractError::ErrOrderNotFound
    );
    let live = query_active_orders(
        &a,
        &pool_id,
        &"alice".to_string(),
        &"bob".to_string(),
    )
    .unwrap();
    assert_eq!(live.id, 1);
    assert!(matches!(live.status, OrderStatus::Pending));
}

#[test]
fn rate_query_scales_every_asset() {
    let (a, pool_id) = seeded_state();
    // Half the supply redeems half of each balance: {100 foo, 150 bar}.
    let rate = query_rate(&a, &pool_id, 50).unwrap();
    assert_eq!(rate[0].amount, 100);
    assert_eq!(rate[1].amount, 150);
}

#[test]
fn query_dispatch_answers_config() {
    let (a, _) = seeded_state();
    match query(&a, QueryMsg::Config).unwrap() {
        QueryResponse::Config(c) => assert_eq!(c.token_code_id, 42),
        _ => panic!("wrong response variant"),
    }
}
