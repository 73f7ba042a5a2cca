use exchange_engine::model::{InternalOrderStatus, MarketId, OrderUpdate, Side};
use exchange_engine::persistence::{latest_updates, should_flush, side_label};

fn update(engine_id: u64, filled: u64) -> OrderUpdate {
    OrderUpdate {
        engine_id,
        user_id: 7,
        market: MarketId::BtcUsdt,
        price: 100,
        quantity: 10,
        filled_quantity: filled,
        side: Side::Buy,
        status: InternalOrderStatus::PartiallyFilled,
        timestamp: 1,
    }
}

#[test]
fn empty_batch_is_never_flushed() {
    assert!(!should_flush(0, 500, 1000, 100));
}

#[test]
fn full_batch_is_flushed_at_once() {
    assert!(should_flush(500, 500, 0, 100));
}

#[test]
fn small_batch_waits_for_the_deadline() {
    assert!(!should_flush(3, 500, 99, 100));
    assert!(should_flush(3, 500, 100, 100));
}

#[test]
fn sides_are_stored_by_name() {
    assert_eq!(side_label(Side::Buy), "BUY");
    assert_eq!(side_label(Side::Sell), "SELL");
}

#[test]
fn last_update_of_each_order_wins_in_id_order() {
    let batch = vec![update(9, 1), update(4, 1), update(9, 5), update(2, 0), update(4, 3)];
    let kept = latest_updates(&batch);
    let ids: Vec<u64> = kept.iter().map(|u| u.engine_id).collect();
    assert_eq!(ids, vec![2, 4, 9]);
    assert_eq!(kept[0].filled_quantity, 0);
    assert_eq!(kept[1].filled_quantity, 3);
    assert_eq!(kept[2].filled_quantity, 5);
}

#[test]
fn empty_batch_keeps_nothing() {
    assert!(latest_updates(&Vec::new()).is_empty());
}
