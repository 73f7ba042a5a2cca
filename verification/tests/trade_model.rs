use exchange_engine::trade::model::{Action, MarketConfig, Order, OrderRequest, OrderType, Side};
use exchange_engine::units::UNIT;

fn order(id: u64, user_id: u64) -> Order {
    Order {
        id,
        user_id,
        quantity: UNIT,
        price: UNIT,
        side: Side::Bid,
        action: Action::Create,
        order_type: OrderType::Limit,
        client_id: 0,
        engine_id: 0,
    }
}

#[test]
fn self_trade_is_same_user() {
    assert!(order(1, 5).is_self_trade(&order(2, 5)));
    assert!(!order(1, 5).is_self_trade(&order(1, 6)));
}

#[test]
fn market_keys_are_built_from_the_parts() {
    let m = MarketConfig { base: "BTC".to_string(), quote: "USDT".to_string(), queue_prefix: "orders".to_string() };
    assert_eq!(m.get_redis_key(), "orders:BTC_USDT");
    assert_eq!(m.get_symbol(), "BTC_USDT");
}

#[test]
fn request_from_wire_fields() {
    let r = OrderRequest::try_from_parts(9, "BTC_USDT".to_string(), 1, "65000.25", "0.5").unwrap();
    assert_eq!(r.user_id, 9);
    assert_eq!(r.side, Side::Ask);
    assert_eq!(r.price, 6_500_025_000_000);
    assert_eq!(r.quantity, 50_000_000);
    assert_eq!(r.symbol, "BTC_USDT");
    assert_eq!(r.action, Action::Create);
    assert_eq!(r.client_id, 0);
    let b = OrderRequest::try_from_parts(9, "X".to_string(), 0, "1", "1").unwrap();
    assert_eq!(b.side, Side::Bid);
}

#[test]
fn request_from_wire_errors_in_order() {
    assert_eq!(OrderRequest::try_from_parts(1, "X".to_string(), 2, "1", "1").unwrap_err(), "Invalid Side");
    assert_eq!(OrderRequest::try_from_parts(1, "X".to_string(), -1, "bad", "bad").unwrap_err(), "Invalid Side");
    assert_eq!(OrderRequest::try_from_parts(1, "X".to_string(), 0, "bad", "bad").unwrap_err(), "Invalid price");
    assert_eq!(OrderRequest::try_from_parts(1, "X".to_string(), 0, "1", "bad").unwrap_err(), "Invalid qty");
}
