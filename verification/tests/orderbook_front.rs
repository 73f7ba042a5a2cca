use exchange_engine::model::{ActionType, MatchingError, Order, OrderRequest, OrderType, Side};
use exchange_engine::orderbook::Orderbook;
use exchange_engine::units::UNIT;

/// `n` whole units as a fixed-point amount.
fn u(n: u64) -> u64 {
    n * UNIT
}

fn mock_request(client_id: u64, price: Option<u64>, qty: Option<u64>) -> OrderRequest {
    OrderRequest {
        user_id: 1,
        symbol: "BTC/USDT".to_string(),
        side: Side::Buy,
        price,
        quantity: qty,
        order_type: OrderType::Limit,
        action: ActionType::Create,
        client_id: Some(client_id),
        engine_id: None,
        timestamp: 123456789,
    }
}

#[test]
fn test_promotion_and_id_generation() {
    let mut ob = Orderbook::new();
    let req = mock_request(101, Some(u(50000)), Some(150_000_000));

    // First promotion
    let order1 = ob.validate_and_promote(req.clone()).unwrap();
    assert_eq!(order1.engine_id, 2);
    assert_eq!(order1.price, u(50000));

    // Second promotion should increment ID
    let order2 = ob.validate_and_promote(req).unwrap();
    assert_eq!(order2.engine_id, 3);
}

#[test]
fn test_indexing_logic() {
    let mut ob = Orderbook::new();
    let user_id = 1;
    let client_id = 101;

    let order = Order {
        engine_id: 55,
        client_id,
        user_id,
        price: u(45000),
        quantity: 50_000_000,
        side: Side::Buy,
        timestamp: 999,
    };

    // Execute indexing
    ob.add_to_indexes(&order);

    // 1. Verify Client ID Map
    assert_eq!(ob.client_id_map.get(&(user_id, client_id)), Some(&55));

    // 2. Verify Metadata Map
    let (p, s) = ob.orders_metadata.get(&55).unwrap();
    assert_eq!(*p, u(45000));
    assert_eq!(*s, Side::Buy);

    // 3. Verify User Orders Set
    let user_set = ob.user_orders.get(&user_id).unwrap();
    assert!(user_set.contains(&55));
}

#[test]
fn validation_errors_name_the_first_missing_field() {
    let mut ob = Orderbook::new();
    assert_eq!(ob.validate_and_promote(mock_request(1, None, Some(u(1)))).unwrap_err(), MatchingError::MissingPrice);
    assert_eq!(ob.validate_and_promote(mock_request(1, None, None)).unwrap_err(), MatchingError::MissingPrice);
    assert_eq!(ob.validate_and_promote(mock_request(1, Some(u(1)), None)).unwrap_err(), MatchingError::MissingQuantity);
    let mut no_client = mock_request(1, Some(u(1)), Some(u(1)));
    no_client.client_id = None;
    assert_eq!(ob.validate_and_promote(no_client).unwrap_err(), MatchingError::MissingClientId);
    // refused requests do not use up ids
    assert_eq!(ob.validate_and_promote(mock_request(1, Some(u(1)), Some(u(1)))).unwrap().engine_id, 2);
}

#[test]
fn match_or_rest_indexes_and_trades_nothing_yet() {
    let mut ob = Orderbook::new();
    let trades = ob.match_or_rest(mock_request(7, Some(u(10)), Some(u(2)))).unwrap();
    assert!(trades.is_empty());
    assert_eq!(ob.client_id_map.get(&(1, 7)), Some(&2));
    assert_eq!(ob.orders_metadata.get(&2), Some(&(u(10), Side::Buy)));
    assert!(ob.user_orders.get(&1).unwrap().contains(&2));
    assert_eq!(ob.match_or_rest(mock_request(8, None, Some(u(2)))).unwrap_err(), MatchingError::MissingPrice);
    assert!(ob.orders_metadata.get(&3).is_none());
}
