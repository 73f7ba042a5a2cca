use exchange_engine::trade::engine::MatchingEngine;
use exchange_engine::trade::model::{Action, EngineRequest, Order, OrderRequest, OrderType, Side, Trade};
use exchange_engine::units::UNIT;

fn u(n: u64) -> u64 {
    n * UNIT
}

fn order(id: u64, user_id: u64, quantity: u64, price: u64, side: Side) -> Order {
    Order {
        id,
        user_id,
        quantity: u(quantity),
        price: u(price),
        side,
        action: Action::Create,
        order_type: OrderType::Limit,
        client_id: 0,
        engine_id: 0,
    }
}

fn book_with_asks() -> MatchingEngine {
    let mut engine = MatchingEngine::new(String::from("btc/usdt"));
    engine.orderbook.add_order(order(1, 1, 3, 100, Side::Ask));
    engine.orderbook.add_order(order(2, 2, 1, 101, Side::Ask));
    engine.orderbook.add_order(order(3, 1, 2, 102, Side::Ask));
    engine.orderbook.add_order(order(4, 2, 1, 99, Side::Bid));
    engine
}

#[test]
fn trades_come_out_in_price_order_and_conserve_quantity() {
    let mut engine = book_with_asks();
    let mut trades: Vec<Trade> = Vec::new();
    engine.process_create_order(order(7, 3, 5, 101, Side::Bid), &mut trades);
    assert_eq!(trades.len(), 2);
    assert_eq!((trades[0].maker_id, trades[0].price, trades[0].quantity), (1, u(100), u(3)));
    assert_eq!((trades[1].maker_id, trades[1].price, trades[1].quantity), (2, u(101), u(1)));
    assert!(trades.iter().all(|t| t.taker_id == 7 && t.taker_side == Side::Bid && t.maker_side == Side::Ask));
    // 5 = 3 + 1 traded + 1 resting
    let rest = engine.orderbook.get_level_mut(u(101), Side::Bid).unwrap();
    assert_eq!(rest[0].quantity, u(1));
    assert_eq!(rest[0].id, 7);
    // the book is not crossed afterwards
    assert_eq!(engine.orderbook.best_bid(), Some(u(101)));
    assert_eq!(engine.orderbook.best_ask(), Some(u(102)));
    assert!(engine.orderbook.orders_lookup.get(&7).is_some());
}

#[test]
fn no_trade_beyond_the_limit() {
    let mut engine = book_with_asks();
    let mut trades: Vec<Trade> = Vec::new();
    engine.process_create_order(order(8, 3, 2, 99, Side::Bid), &mut trades);
    assert!(trades.is_empty());
    let level = engine.orderbook.get_level_mut(u(99), Side::Bid).unwrap();
    assert_eq!(level.len(), 2);
    assert_eq!(level[1].id, 8);
}

#[test]
fn own_resting_orders_are_cancelled_not_traded() {
    let mut engine = book_with_asks();
    let mut trades: Vec<Trade> = Vec::new();
    engine.process_create_order(order(9, 1, 4, 102, Side::Bid), &mut trades);
    // user 1's asks at 100 and 102 go; only user 2's ask at 101 trades
    assert_eq!(trades.len(), 1);
    assert_eq!(trades[0].maker_id, 2);
    assert!(engine.orderbook.best_ask().is_none());
    assert_eq!(engine.orderbook.get_level_mut(u(102), Side::Bid).unwrap()[0].quantity, u(3));
}

#[test]
fn a_filled_taker_does_not_rest() {
    let mut engine = book_with_asks();
    let mut trades: Vec<Trade> = Vec::new();
    engine.process_create_order(order(10, 3, 2, 100, Side::Bid), &mut trades);
    assert_eq!(trades.len(), 1);
    assert_eq!(engine.orderbook.get_level_mut(u(100), Side::Ask).unwrap()[0].quantity, u(1));
    assert!(engine.orderbook.get_level_mut(u(100), Side::Bid).is_none());
    assert!(engine.orderbook.orders_lookup.get(&10).is_none());
}

#[test]
fn a_zero_quantity_taker_does_nothing() {
    let mut engine = book_with_asks();
    let mut trades: Vec<Trade> = Vec::new();
    engine.process_create_order(order(11, 3, 0, 200, Side::Bid), &mut trades);
    assert!(trades.is_empty());
    assert_eq!(engine.orderbook.best_ask(), Some(u(100)));
}

#[test]
fn cancel_through_process_order() {
    let mut engine = book_with_asks();
    let mut cancel = order(0, 2, 0, 0, Side::Bid);
    cancel.action = Action::Cancel;
    cancel.engine_id = 2;
    engine.process_order(cancel);
    assert!(engine.orderbook.get_level_mut(u(101), Side::Ask).is_none());
    assert!(engine.orderbook.orders_lookup.get(&2).is_none());
    let mut all = order(0, 2, 0, 0, Side::Bid);
    all.action = Action::CancelAll;
    engine.process_order(all);
    assert_eq!(engine.orderbook.best_ask(), Some(u(100)));
}

#[test]
fn ids_are_given_to_creates_only() {
    let mut engine = MatchingEngine::new(String::from("eth/usdt"));
    assert_eq!(engine.asset_pair, "ETH/USDT");
    let req = |action| OrderRequest {
        user_id: 4,
        price: u(10),
        quantity: u(1),
        side: Side::Bid,
        symbol: "ETH_USDT".to_string(),
        action,
        order_type: OrderType::Limit,
        client_id: 12,
        engine_id: 77,
    };
    match engine.create_engine_order_id_if_it_is_create_else_leave(req(Action::Create)).unwrap() {
        EngineRequest::Create(o) => {
            assert_eq!((o.id, o.engine_id, o.user_id, o.client_id), (1, 1, 4, 12));
        },
        _ => panic!("expected a create"),
    }
    match engine.create_engine_order_id_if_it_is_create_else_leave(req(Action::Cancel)).unwrap() {
        EngineRequest::Cancel(c) => assert_eq!((c.user_id, c.client_id, c.engine_id), (4, 12, 77)),
        _ => panic!("expected a cancel"),
    }
    match engine.create_engine_order_id_if_it_is_create_else_leave(req(Action::CancelAll)).unwrap() {
        EngineRequest::CancelAll(c) => assert_eq!(c.user_id, 4),
        _ => panic!("expected a cancel-all"),
    }
    match engine.create_engine_order_id_if_it_is_create_else_leave(req(Action::Create)).unwrap() {
        EngineRequest::Create(o) => assert_eq!(o.id, 2),
        _ => panic!("expected a create"),
    }
}

#[test]
fn mid_price_is_exact() {
    let mut engine = book_with_asks();
    // best bid 99, best ask 100: mid 99.5 = 99_500_000_000 units of 10^-9
    assert_eq!(engine.orderbook.calculate_mid_fair_price(), Some(99_500_000_000));
    engine.orderbook.remove_level(u(99), Side::Bid);
    assert_eq!(engine.orderbook.calculate_mid_fair_price(), None);
}

#[test]
fn cancel_of_unknown_id_changes_nothing() {
    let mut engine = book_with_asks();
    engine.process_cancel_by_id(42);
    assert_eq!(engine.orderbook.best_ask(), Some(u(100)));
    assert_eq!(engine.orderbook.orders_lookup.len(), 4);
}

#[test]
fn kth_create_gets_id_k_across_cancels() {
    let mut e = MatchingEngine::new("btc_usdt".to_string());
    let req = |action: Action| OrderRequest {
        user_id: 4,
        price: 10,
        quantity: 1,
        side: Side::Bid,
        symbol: "BTC_USDT".to_string(),
        action,
        order_type: OrderType::Limit,
        client_id: 7,
        engine_id: 99,
    };
    let mut ids = Vec::new();
    for a in [Action::Create, Action::Cancel, Action::CancelAll, Action::Create, Action::Cancel, Action::Create] {
        match e.create_engine_order_id_if_it_is_create_else_leave(req(a)) {
            Ok(EngineRequest::Create(o)) => {
                assert_eq!(o.id, o.engine_id);
                ids.push(o.id);
            }
            Ok(EngineRequest::Cancel(c)) => assert_eq!(c.engine_id, 99),
            Ok(EngineRequest::CancelAll(c)) => assert_eq!(c.user_id, 4),
            Err(_) => panic!("requests are never refused"),
        }
    }
    assert_eq!(ids, vec![1, 2, 3]);
    assert_eq!(e.current_order_id(), 4);
}

#[test]
fn no_order_rests_with_zero_quantity() {
    let mut engine = book_with_asks();
    let mut trades: Vec<Trade> = Vec::new();
    // fills the level at 100 exactly and one of the two at 102
    engine.process_create_order(order(8, 3, 3, 100, Side::Bid), &mut trades);
    engine.process_create_order(order(9, 3, 1, 102, Side::Bid), &mut trades);
    engine.process_create_order(order(10, 4, 1, 102, Side::Bid), &mut trades);
    for side in [&engine.orderbook.bids, &engine.orderbook.asks] {
        for level in side.values() {
            assert!(!level.is_empty());
            assert!(level.iter().all(|o| o.quantity > 0));
        }
    }
    assert_eq!(engine.orderbook.asks.get(&u(102)).map(|l| l[0].quantity), Some(u(1)));
}
