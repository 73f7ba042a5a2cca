use std::collections::VecDeque;

use exchange_engine::api::MarketConfig;
use exchange_engine::engine::Engine;
use exchange_engine::model::{ActionType, MarketId, OrderRequest, OrderType, Side};
use exchange_engine::orderbook::{DepthLevel, Orderbook};

fn resting(price: u64, quantity: Option<u64>, side: Side) -> OrderRequest {
    OrderRequest {
        user_id: 1,
        symbol: "BTC_USDT".to_string(),
        side,
        price: Some(price),
        quantity,
        order_type: OrderType::Limit,
        action: ActionType::Create,
        client_id: Some(1),
        engine_id: None,
        timestamp: 0,
    }
}

fn book() -> Orderbook {
    let mut b = Orderbook::new();
    for (p, q) in [(100u64, 5u64), (120, 7), (90, 1)] {
        b.bids.entry(p).or_insert_with(VecDeque::new).push_back(resting(p, Some(q), Side::Buy));
    }
    b.bids.get_mut(&100).unwrap().push_back(resting(100, Some(4), Side::Buy));
    b.bids.get_mut(&100).unwrap().push_back(resting(100, None, Side::Buy));
    for (p, q) in [(300u64, 2u64), (250, 1)] {
        b.asks.entry(p).or_insert_with(VecDeque::new).push_back(resting(p, Some(q), Side::Sell));
    }
    b
}

#[test]
fn depth_takes_the_best_levels_of_each_side() {
    let d = book().get_depth(2);
    assert_eq!(d.bids, vec![DepthLevel { price: 120, quantity: 7 }, DepthLevel { price: 100, quantity: 9 }]);
    assert_eq!(d.asks, vec![DepthLevel { price: 250, quantity: 1 }, DepthLevel { price: 300, quantity: 2 }]);
}

#[test]
fn depth_of_zero_levels_is_empty() {
    let d = book().get_depth(0);
    assert!(d.bids.is_empty() && d.asks.is_empty());
}

#[test]
fn market_depth_carries_the_market() {
    let engine = Engine::new(MarketConfig::from_id(MarketId::EthUsdt));
    let d = engine.get_market_depth(50);
    assert_eq!(d.market, MarketId::EthUsdt);
    assert!(d.bids.is_empty() && d.asks.is_empty());
}
