use exchange_engine::api::{get_status, load_markets_from_proto, MarketConfig, Status};
use exchange_engine::engine::{Engine, Outbound};
use exchange_engine::model::{ActionType, AssetId, InternalOrderStatus, MarketId, OrderRequest, OrderType, Side};
use exchange_engine::units::UNIT;
use exchange_engine::utils::MarketConfig as FileMarket;

fn request(action: ActionType, price: Option<u64>, quantity: Option<u64>) -> OrderRequest {
    OrderRequest {
        user_id: 3,
        symbol: "BTC_USDT".to_string(),
        side: Side::Sell,
        price,
        quantity,
        order_type: OrderType::Limit,
        action,
        client_id: Some(11),
        engine_id: None,
        timestamp: 5,
    }
}

#[test]
fn status_is_active() {
    assert_eq!(get_status(), Status { active: true, engine_tps: 10000 });
}

#[test]
fn registry_of_markets() {
    let btc = MarketConfig::from_id(MarketId::BtcUsdt);
    assert_eq!(btc.redis_key, "trades:btc_usdt");
    assert_eq!(btc.base_asset, AssetId::Btc);
    assert_eq!(btc.min_order_size, UNIT);
    let eth = MarketConfig::from_id(MarketId::EthUsdt);
    assert_eq!(eth.redis_key, "trades:eth_usdt");
    assert_eq!(eth.quote_asset, AssetId::Usdt);
    let all = load_markets_from_proto();
    assert_eq!(all.len(), 2);
    assert_eq!(all[0].0, MarketId::BtcUsdt);
    assert_eq!(all[1].1.market_id, MarketId::EthUsdt);
}

#[test]
fn file_market_names() {
    let m = FileMarket { base: "ETH".to_string(), quote: "USDT".to_string(), queue_prefix: "q".to_string() };
    assert_eq!(m.get_redis_key(), "q:ETH_USDT");
    assert_eq!(m.get_symbol(), "ETH_USDT");
    assert_eq!(m.get_base(), "ETH");
    assert_eq!(m.get_quote(), "USDT");
}

#[test]
fn a_create_is_placed_and_reported() {
    let mut engine = Engine::new(MarketConfig::from_id(MarketId::BtcUsdt));
    let sent = engine.process_request(request(ActionType::Create, Some(2 * UNIT), Some(UNIT)), 1000);
    assert_eq!(sent.len(), 2);
    match &sent[0] {
        Outbound::Report(r) => {
            assert_eq!(r.status, InternalOrderStatus::Placed);
            assert_eq!((r.client_id, r.user_id, r.remaining_quantity), (11, 3, UNIT));
            assert!(r.trades.is_empty());
            assert!(r.error_message.is_empty());
        },
        _ => panic!("expected a report"),
    }
    match &sent[1] {
        Outbound::Order(o) => {
            assert_eq!(o.status, InternalOrderStatus::Placed);
            assert_eq!((o.engine_id, o.price, o.quantity, o.filled_quantity, o.timestamp), (0, 2 * UNIT, UNIT, 0, 1000));
            assert_eq!(o.market, MarketId::BtcUsdt);
            assert_eq!(o.side, Side::Sell);
        },
        _ => panic!("expected an order update"),
    }
    assert_eq!(engine.orderbook.orders_metadata.get(&2), Some(&(2 * UNIT, Side::Sell)));
}

#[test]
fn a_zero_quantity_create_counts_as_filled() {
    let mut engine = Engine::new(MarketConfig::from_id(MarketId::EthUsdt));
    let sent = engine.process_request(request(ActionType::Create, Some(UNIT), Some(0)), 7);
    match (&sent[0], &sent[1]) {
        (Outbound::Report(r), Outbound::Order(o)) => {
            assert_eq!(r.status, InternalOrderStatus::Placed);
            assert_eq!(o.status, InternalOrderStatus::Filled);
        },
        _ => panic!("expected a report and an order update"),
    }
}

#[test]
fn refused_and_other_requests_send_nothing() {
    let mut engine = Engine::new(MarketConfig::from_id(MarketId::BtcUsdt));
    assert!(engine.process_request(request(ActionType::Create, None, Some(UNIT)), 1).is_empty());
    assert!(engine.process_request(request(ActionType::Cancel, Some(UNIT), Some(UNIT)), 1).is_empty());
    assert!(engine.process_request(request(ActionType::Deposit, Some(UNIT), Some(UNIT)), 1).is_empty());
    assert!(engine.process_request(request(ActionType::CancelAll, Some(UNIT), Some(UNIT)), 1).is_empty());
    assert!(engine.orderbook.orders_metadata.is_empty());
}

#[test]
fn report_statuses() {
    let engine = Engine::new(MarketConfig::from_id(MarketId::BtcUsdt));
    let cancel = request(ActionType::Cancel, None, None);
    assert_eq!(engine.create_report(&cancel, Vec::new(), 5).status, InternalOrderStatus::Cancelled);
    let create = request(ActionType::Create, None, None);
    assert_eq!(engine.create_report(&create, Vec::new(), 0).status, InternalOrderStatus::Placed);
    let t = exchange_engine::model::Trade {
        maker_user_id: 1,
        taker_user_id: 3,
        maker_order_id: 2,
        taker_order_id: 4,
        price: UNIT,
        quantity: UNIT,
        taker_side: Side::Sell,
        maker_side: Side::Buy,
        timestamp: 0,
        market: MarketId::BtcUsdt,
        base: AssetId::Btc,
        quote: AssetId::Usdt,
        maker_remaining: 0,
        maker_initial_quantity: UNIT,
    };
    assert_eq!(engine.create_report(&create, vec![t], 0).status, InternalOrderStatus::Filled);
    let r = engine.create_report(&create, vec![t], 3);
    assert_eq!(r.status, InternalOrderStatus::PartiallyFilled);
    assert_eq!(r.trades.len(), 1);
    assert_eq!(r.client_id, 11);
}

#[test]
fn wire_create_becomes_a_request() {
    let r = OrderRequest::create_from_wire(9, "BTC_USDT".to_string(), 1, "65000.25", "0.5", 77, 123).unwrap();
    assert_eq!(r.side, Side::Sell);
    assert_eq!(r.price, Some(65000 * UNIT + UNIT / 4));
    assert_eq!(r.quantity, Some(UNIT / 2));
    assert_eq!(r.client_id, Some(77));
    assert_eq!(r.engine_id, None);
    assert_eq!(r.action, ActionType::Create);
    assert_eq!(r.timestamp, 123);
    assert_eq!(r.symbol, "BTC_USDT");
}

#[test]
fn wire_create_with_bad_amounts_or_side() {
    let r = OrderRequest::create_from_wire(9, "BTC_USDT".to_string(), 0, "abc", "-1", 1, 0).unwrap();
    assert_eq!(r.side, Side::Buy);
    assert_eq!(r.price, None);
    assert_eq!(r.quantity, None);
    assert!(OrderRequest::create_from_wire(9, "BTC_USDT".to_string(), 2, "1", "1", 1, 0).is_none());
}
