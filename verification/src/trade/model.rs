//! Orders, trades and requests of the single-market engine.

use vstd::prelude::*;
use vstd::string::*;
use crate::units::{parse_units, units_of_text};
use crate::text::{owned};

verus! {

/// The side of an order: a bid buys, an ask sells.
#[derive(Debug, Clone, Copy, PartialEq, Eq, Structural)]
pub enum Side {
    Bid,
    Ask,
}

/// What a request asks the engine to do.
#[derive(Debug, Clone, Copy, PartialEq, Eq, Structural)]
pub enum Action {
    Create,
    Cancel,
    CancelAll,
}

/// How an order is priced.
#[derive(Debug, Clone, Copy, PartialEq, Eq, Structural)]
pub enum OrderType {
    Limit,
}

/// An order known to the engine. Price and quantity are units of 10^-8.
#[derive(Debug, Clone, Copy)]
pub struct Order {
    pub id: u64,
    pub user_id: u64,
    pub quantity: u64,
    pub price: u64,
    pub side: Side,
    pub action: Action,
    pub order_type: OrderType,
    pub client_id: u64,
    pub engine_id: u64,
}

impl Order {
    /// Whether two orders belong to the same user (a trade between them would be a self trade).
    pub fn is_self_trade(&self, other: &Order) -> (r: bool)
        ensures
            r == (self.user_id == other.user_id),
    {
        self.user_id == other.user_id
    }
}

/// A fill between a resting (maker) order and an incoming (taker) order.
#[derive(Debug, Clone, Copy, PartialEq, Eq, Structural)]
pub struct Trade {
    pub maker_id: u64,
    pub taker_id: u64,
    pub price: u64,
    pub quantity: u64,
    pub taker_side: Side,
    pub maker_side: Side,
}

/// Where a resting order can be found: its price level and side.
#[derive(Debug, Clone, Copy, PartialEq, Eq, Structural)]
pub struct OrderMetadata {
    pub price: u64,
    pub side: Side,
}

/// A request to cancel one order.
#[derive(Debug, Clone, Copy, PartialEq, Eq, Structural)]
pub struct OrderCancel {
    pub user_id: u64,
    pub client_id: u64,
    pub engine_id: u64,
}

/// A request to cancel every order of a user.
#[derive(Debug, Clone, Copy, PartialEq, Eq, Structural)]
pub struct OrderCancelAll {
    pub user_id: u64,
}

/// A request sorted by what it asks for.
#[derive(Debug, Clone, Copy)]
pub enum EngineRequest {
    Create(Order),
    Cancel(OrderCancel),
    CancelAll(OrderCancelAll),
}

/// Why the engine turned a request down.
#[derive(Debug, Clone, Copy, PartialEq, Eq, Structural)]
pub enum EngineError {
    Invalid,
}

/// A market: its base and quote assets and the prefix of its queue key.
#[derive(Debug, Clone)]
pub struct MarketConfig {
    pub base: String,
    pub quote: String,
    pub queue_prefix: String,
}

impl MarketConfig {
    /// `"{queue_prefix}:{base}_{quote}"`.
    pub fn get_redis_key(&self) -> (r: String)
        ensures
            r@ == self.queue_prefix@ + seq![':'] + self.base@ + seq!['_'] + self.quote@,
    {
        let mut r = self.queue_prefix.clone();
        r.append(":");
        r.append(self.base.as_str());
        r.append("_");
        r.append(self.quote.as_str());
        proof {
            reveal_strlit(":");
            reveal_strlit("_");
        }
        r
    }

    /// `"{base}_{quote}"`.
    pub fn get_symbol(&self) -> (r: String)
        ensures
            r@ == self.base@ + seq!['_'] + self.quote@,
    {
        let mut r = self.base.clone();
        r.append("_");
        r.append(self.quote.as_str());
        proof {
            reveal_strlit("_");
        }
        r
    }
}

/// A request as the engine receives it. Price and quantity are units of 10^-8.
#[derive(Debug, Clone)]
pub struct OrderRequest {
    pub user_id: u64,
    pub price: u64,
    pub quantity: u64,
    pub side: Side,
    pub symbol: String,
    pub action: Action,
    pub order_type: OrderType,
    pub client_id: u64,
    pub engine_id: u64,
}

/// The side that a wire side code stands for: 0 is a bid, 1 an ask.
pub open spec fn side_of_code(code: i32) -> Option<Side> {
    if code == 0 {
        Some(Side::Bid)
    } else if code == 1 {
        Some(Side::Ask)
    } else {
        None
    }
}

impl OrderRequest {
    /// Builds a create request from the fields of a wire request: the side code
    /// (0 bid, 1 ask) and the price and quantity as decimal text.
    /// Fails with "Invalid Side", then "Invalid price", then "Invalid qty", in that order.
    pub fn try_from_parts(user_id: u64, symbol: String, side: i32, price: &str, quantity: &str) -> (r:
        Result<OrderRequest, String>)
        ensures
            side_of_code(side) is None ==> (r matches Err(e) && e@ == "Invalid Side"@),
            side_of_code(side) is Some && units_of_text(price@) is None ==> (r matches Err(e) && e@
                == "Invalid price"@),
            side_of_code(side) is Some && units_of_text(price@) is Some && units_of_text(
                quantity@,
            ) is None ==> (r matches Err(e) && e@ == "Invalid qty"@),
            r matches Ok(req) ==> {
                &&& side_of_code(side) == Some(req.side)
                &&& units_of_text(price@) == Some(req.price)
                &&& units_of_text(quantity@) == Some(req.quantity)
                &&& req.user_id == user_id
                &&& req.symbol@ == symbol@
                &&& req.action == Action::Create
                &&& req.order_type == OrderType::Limit
                &&& req.client_id == 0
                &&& req.engine_id == 0
            },
            (side_of_code(side) is Some && units_of_text(price@) is Some && units_of_text(
                quantity@,
            ) is Some) ==> r is Ok,
    {
        let side = if side == 0 {
            Side::Bid
        } else if side == 1 {
            Side::Ask
        } else {
            return Err(owned("Invalid Side"));
        };
        let price = match parse_units(price) {
            Some(p) => p,
            None => {
                return Err(owned("Invalid price"));
            },
        };
        let quantity = match parse_units(quantity) {
            Some(q) => q,
            None => {
                return Err(owned("Invalid qty"));
            },
        };
        Ok(OrderRequest {
            user_id,
            price,
            quantity,
            side,
            symbol,
            action: Action::Create,
            order_type: OrderType::Limit,
            client_id: 0,
            engine_id: 0,
        })
    }
}

} // verus!
