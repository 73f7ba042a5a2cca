//! Requests, orders, trades and reports of the engine service.

use vstd::prelude::*;
use crate::units::{parse_units, units_of_text};

verus! {

/// The side of an order.
#[derive(Debug, Clone, Copy, PartialEq, Eq, Structural)]
pub enum Side {
    Buy,
    Sell,
}

/// How an order is priced.
#[derive(Debug, Clone, Copy, PartialEq, Eq, Structural)]
pub enum OrderType {
    Limit,
}

/// What a request asks for.
#[derive(Debug, Clone, Copy, PartialEq, Eq, Structural)]
pub enum ActionType {
    Create,
    Cancel,
    Deposit,
    CancelAll,
}

/// The markets the exchange runs.
#[derive(Debug, Clone, Copy, PartialEq, Eq, Structural)]
pub enum MarketId {
    Unspecified,
    BtcUsdt,
    EthUsdt,
}

/// The assets the exchange keeps.
#[derive(Debug, Clone, Copy, PartialEq, Eq, Structural)]
pub enum AssetId {
    Unspecified,
    Btc,
    Eth,
    Usdt,
}

/// The state of an order as reported to its owner.
#[derive(Debug, Clone, Copy, PartialEq, Eq, Structural)]
pub enum InternalOrderStatus {
    Placed,
    PartiallyFilled,
    Filled,
    Cancelled,
}

/// Why a request could not become an order.
#[derive(Debug, Clone, Copy, PartialEq, Eq, Structural)]
pub enum MatchingError {
    MissingPrice,
    MissingQuantity,
    MissingClientId,
}

/// A request as it reaches the engine; price and quantity in units of 10^-8.
#[derive(Debug, Clone)]
pub struct OrderRequest {
    pub user_id: u64,
    pub symbol: String,
    pub side: Side,
    pub price: Option<u64>,
    pub quantity: Option<u64>,
    pub order_type: OrderType,
    pub action: ActionType,
    pub client_id: Option<u64>,
    pub engine_id: Option<u64>,
    pub timestamp: u64,
}

/// The side that a wire side code stands for: 0 is a buy, 1 a sell.
pub open spec fn side_of_wire(code: i32) -> Option<Side> {
    if code == 0 {
        Some(Side::Buy)
    } else if code == 1 {
        Some(Side::Sell)
    } else {
        None
    }
}

impl OrderRequest {
    /// A create request from the fields of a wire order: the side code (0 buy,
    /// 1 sell), price and quantity as decimal text, the client's order id and
    /// the time. A price or quantity whose text is not an amount is absent (the
    /// book then refuses the request); an unknown side code gives `None`.
    pub fn create_from_wire(
        user_id: u64,
        symbol: String,
        side: i32,
        price: &str,
        quantity: &str,
        client_id: u64,
        timestamp: u64,
    ) -> (r: Option<OrderRequest>)
        ensures
            r is None <==> side_of_wire(side) is None,
            r matches Some(req) ==> {
                &&& side_of_wire(side) == Some(req.side)
                &&& req.user_id == user_id
                &&& req.symbol@ == symbol@
                &&& req.price == units_of_text(price@)
                &&& req.quantity == units_of_text(quantity@)
                &&& req.order_type == OrderType::Limit
                &&& req.action == ActionType::Create
                &&& req.client_id == Some(client_id)
                &&& req.engine_id is None
                &&& req.timestamp == timestamp
            },
    {
        let side = if side == 0 {
            Side::Buy
        } else if side == 1 {
            Side::Sell
        } else {
            return None;
        };
        Some(OrderRequest {
            user_id,
            symbol,
            side,
            price: parse_units(price),
            quantity: parse_units(quantity),
            order_type: OrderType::Limit,
            action: ActionType::Create,
            client_id: Some(client_id),
            engine_id: None,
            timestamp,
        })
    }
}

/// An order accepted by the engine.
#[derive(Debug, Clone, Copy, PartialEq, Eq, Structural)]
pub struct Order {
    pub engine_id: u64,
    pub client_id: u64,
    pub user_id: u64,
    pub price: u64,
    pub quantity: u64,
    pub side: Side,
    pub timestamp: u64,
}

/// A fill as the engine reports it.
#[derive(Debug, Clone, Copy, PartialEq, Eq, Structural)]
pub struct Trade {
    pub maker_user_id: u64,
    pub taker_user_id: u64,
    pub maker_order_id: u64,
    pub taker_order_id: u64,
    pub price: u64,
    pub quantity: u64,
    pub taker_side: Side,
    pub maker_side: Side,
    pub timestamp: u64,
    pub market: MarketId,
    pub base: AssetId,
    pub quote: AssetId,
    pub maker_remaining: u64,
    pub maker_initial_quantity: u64,
}

/// The report an order's owner receives.
#[derive(Debug, Clone)]
pub struct ExecutionReport {
    pub client_id: u64,
    pub user_id: u64,
    pub status: InternalOrderStatus,
    pub trades: Vec<Trade>,
    pub remaining_quantity: u64,
    pub error_message: String,
}

/// The state of one order as it is stored.
#[derive(Debug, Clone, Copy, PartialEq, Eq, Structural)]
pub struct OrderUpdate {
    pub engine_id: u64,
    pub user_id: u64,
    pub market: MarketId,
    pub price: u64,
    pub quantity: u64,
    pub filled_quantity: u64,
    pub side: Side,
    pub status: InternalOrderStatus,
    pub timestamp: u64,
}

} // verus!
