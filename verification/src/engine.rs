//! The engine of one market: it takes requests, runs them through the order
//! book, and says which reports and order updates go out. Sending them is the
//! caller's work.

use vstd::prelude::*;
use crate::api::MarketConfig;
use crate::ledger::Ledger;
use crate::model::{ActionType, ExecutionReport, InternalOrderStatus, OrderRequest, OrderUpdate, Trade};
use crate::orderbook::{best_levels, DepthResponse, Orderbook, promoted};
use crate::text::owned;

verus! {

/// A message the engine wants sent.
#[derive(Debug)]
pub enum Outbound {
    /// A trade for the market's trade stream.
    Trade(Trade),
    /// A report for an order's owner.
    Report(ExecutionReport),
    /// The new state of an order, for storage.
    Order(OrderUpdate),
}

/// The status of a report: cancelled for a cancel request; placed when nothing
/// traded; filled when nothing remains; partly filled otherwise.
pub open spec fn report_status(action: ActionType, n_trades: nat, remaining: u64) -> InternalOrderStatus {
    if action == ActionType::Cancel {
        InternalOrderStatus::Cancelled
    } else if n_trades == 0 {
        InternalOrderStatus::Placed
    } else if remaining == 0 {
        InternalOrderStatus::Filled
    } else {
        InternalOrderStatus::PartiallyFilled
    }
}

/// The status of a taker's order update: filled when nothing remains, partly
/// filled when some of it traded, placed otherwise.
pub open spec fn taker_status(remaining: u64, original: u64) -> InternalOrderStatus {
    if remaining == 0 {
        InternalOrderStatus::Filled
    } else if remaining < original {
        InternalOrderStatus::PartiallyFilled
    } else {
        InternalOrderStatus::Placed
    }
}

/// The value of an optional number, zero when absent.
pub open spec fn or_zero(x: Option<u64>) -> u64 {
    match x {
        Some(v) => v,
        None => 0,
    }
}

/// The engine of one market.
pub struct Engine {
    pub config: MarketConfig,
    pub orderbook: Orderbook,
    pub ledger: Ledger,
}

impl Engine {
    /// An engine with an empty book and ledger for a market.
    pub fn new(config: MarketConfig) -> (r: Self)
        ensures
            r.config == config,
            r.orderbook.last_id() == 1,
            r.ledger@ == Map::<u64, Map<Seq<char>, crate::ledger::Account>>::empty(),
            r.ledger.wf(),
    {
        Self { config, orderbook: Orderbook::new(), ledger: Ledger::new() }
    }

    /// Handles one request: a create goes through [`Engine::handle_create`];
    /// cancels, deposits and cancel-alls change nothing and send nothing.
    /// `now` is the time in microseconds since the Unix epoch.
    pub fn process_request(&mut self, request: OrderRequest, now: u64) -> (r: Vec<Outbound>)
        requires
            old(self).orderbook.last_id() < u64::MAX,
        ensures
            request.action == ActionType::Create ==> create_sent(*old(self), *final(self), request, now, r@),
            request.action != ActionType::Create ==> r@.len() == 0 && final(self).orderbook == old(self).orderbook,
            final(self).config == old(self).config,
            final(self).ledger == old(self).ledger,
    {
        match request.action {
            ActionType::Create => self.handle_create(request, now),
            ActionType::Cancel => {
                self.handle_cancel(request);
                Vec::new()
            },
            ActionType::Deposit => {
                self.handle_deposit(request);
                Vec::new()
            },
            ActionType::CancelAll => {
                self.handle_cancel_all(request);
                Vec::new()
            },
        }
    }

    /// A depth snapshot of the market's book: up to `levels` of its best bid
    /// levels (highest price first) and best ask levels (lowest price first).
    pub fn get_market_depth(&self, levels: usize) -> (r: DepthResponse)
        ensures
            r.market == self.config.market_id,
            best_levels(self.orderbook.levels().0, r.bids@, levels, true),
            best_levels(self.orderbook.levels().1, r.asks@, levels, false),
    {
        let d = self.orderbook.get_depth(levels);
        DepthResponse { market: self.config.market_id, bids: d.bids, asks: d.asks }
    }

    /// A create: the request goes to the book. When the book refuses it nothing
    /// is sent. Otherwise, for every trade, the trade, a report to the maker and
    /// the maker's order update go out; then the taker's report and the taker's
    /// order update (timestamped `now`).
    fn handle_create(&mut self, req: OrderRequest, now: u64) -> (r: Vec<Outbound>)
        requires
            old(self).orderbook.last_id() < u64::MAX,
        ensures
            create_sent(*old(self), *final(self), req, now, r@),
            final(self).config == old(self).config,
            final(self).ledger == old(self).ledger,
    {
        let client_id = match req.client_id {
            Some(c) => c,
            None => 0,
        };
        let original_quantity = match req.quantity {
            Some(q) => q,
            None => 0,
        };
        let mut out: Vec<Outbound> = Vec::new();
        let mut taker_trades: Vec<Trade> = Vec::new();
        match self.orderbook.match_or_rest(copy_request(&req)) {
            Ok(trades) => {
                let mut total_filled: u64 = 0;
                let mut i: usize = 0;
                while i < trades.len()
                    invariant
                        trades@.len() == 0,
                        i <= trades@.len(),
                        total_filled == 0,
                        out@.len() == 0,
                        taker_trades@.len() == 0,
                    decreases trades@.len() - i,
                {
                    let t = trades[i];
                    total_filled = total_filled + t.quantity;
                    out.push(Outbound::Trade(t));
                    taker_trades.push(t);
                    let maker_status = if t.maker_remaining == 0 {
                        InternalOrderStatus::Filled
                    } else {
                        InternalOrderStatus::PartiallyFilled
                    };
                    let maker_report = ExecutionReport {
                        client_id,
                        user_id: t.maker_user_id,
                        status: maker_status,
                        trades: vec![t],
                        remaining_quantity: t.maker_remaining,
                        error_message: String::new(),
                    };
                    out.push(Outbound::Report(maker_report));
                    let maker_order = OrderUpdate {
                        engine_id: t.maker_order_id,
                        user_id: t.maker_user_id,
                        market: t.market,
                        price: t.price,
                        quantity: t.maker_initial_quantity,
                        filled_quantity: t.maker_initial_quantity - t.maker_remaining,
                        side: t.maker_side,
                        status: maker_status,
                        timestamp: t.timestamp,
                    };
                    out.push(Outbound::Order(maker_order));
                    i = i + 1;
                }
                let taker_remaining = original_quantity - total_filled;
                let report = self.create_report(&req, taker_trades, taker_remaining);
                out.push(Outbound::Report(report));
                let status = if taker_remaining == 0 {
                    InternalOrderStatus::Filled
                } else if taker_remaining < original_quantity {
                    InternalOrderStatus::PartiallyFilled
                } else {
                    InternalOrderStatus::Placed
                };
                let taker_order = OrderUpdate {
                    engine_id: match req.engine_id {
                        Some(e) => e,
                        None => 0,
                    },
                    user_id: req.user_id,
                    market: self.config.market_id,
                    price: match req.price {
                        Some(p) => p,
                        None => 0,
                    },
                    quantity: original_quantity,
                    filled_quantity: original_quantity - taker_remaining,
                    side: req.side,
                    status,
                    timestamp: now,
                };
                out.push(Outbound::Order(taker_order));
            },
            Err(_) => {},
        }
        out
    }

    /// Acknowledges a request; nothing is sent yet.
    pub fn send_succes() {
    }

    /// Turns a request down; nothing is sent yet.
    pub fn send_rejection() {
    }

    /// Cancels are not handled yet: nothing changes.
    fn handle_cancel(&mut self, _order: OrderRequest)
        ensures
            final(self).orderbook == old(self).orderbook,
            final(self).config == old(self).config,
            final(self).ledger == old(self).ledger,
    {
    }

    /// Deposits are not handled yet: nothing changes.
    fn handle_deposit(&mut self, _order: OrderRequest)
        ensures
            final(self).orderbook == old(self).orderbook,
            final(self).config == old(self).config,
            final(self).ledger == old(self).ledger,
    {
    }

    /// Cancel-alls are not handled yet: nothing changes.
    fn handle_cancel_all(&mut self, _order: OrderRequest)
        ensures
            final(self).orderbook == old(self).orderbook,
            final(self).config == old(self).config,
            final(self).ledger == old(self).ledger,
    {
    }

    /// A report to a request's owner: its client id (0 when absent), user, the
    /// trades, what remains, and the status [`report_status`] gives.
    pub fn create_report(&self, req: &OrderRequest, trades: Vec<Trade>, remaining: u64) -> (r: ExecutionReport)
        ensures
            r.client_id == or_zero(req.client_id),
            r.user_id == req.user_id,
            r.status == report_status(req.action, trades@.len(), remaining),
            r.trades@ == trades@,
            r.remaining_quantity == remaining,
            r.error_message@ == Seq::<char>::empty(),
    {
        let status = if req.action == ActionType::Cancel {
            InternalOrderStatus::Cancelled
        } else if trades.len() == 0 {
            InternalOrderStatus::Placed
        } else if remaining == 0 {
            InternalOrderStatus::Filled
        } else {
            InternalOrderStatus::PartiallyFilled
        };
        ExecutionReport {
            client_id: match req.client_id {
                Some(c) => c,
                None => 0,
            },
            user_id: req.user_id,
            status,
            trades,
            remaining_quantity: remaining,
            error_message: String::new(),
        }
    }
}

/// A copy of a request (the symbol as an equal string).
fn copy_request(req: &OrderRequest) -> (r: OrderRequest)
    ensures
        r.user_id == req.user_id,
        r.symbol@ == req.symbol@,
        r.side == req.side,
        r.price == req.price,
        r.quantity == req.quantity,
        r.order_type == req.order_type,
        r.action == req.action,
        r.client_id == req.client_id,
        r.engine_id == req.engine_id,
        r.timestamp == req.timestamp,
{
    OrderRequest {
        user_id: req.user_id,
        symbol: req.symbol.clone(),
        side: req.side,
        price: req.price,
        quantity: req.quantity,
        order_type: req.order_type,
        action: req.action,
        client_id: req.client_id,
        engine_id: req.engine_id,
        timestamp: req.timestamp,
    }
}

/// What a create does: the book takes the request as
/// [`Orderbook::match_or_rest`] says; when it refuses, nothing is sent;
/// when it accepts, no trade comes out (matching is not done yet), so the
/// taker's report (status from [`report_status`], all of it remaining) and the
/// taker's order update (status from [`taker_status`]) are sent, in that order.
pub open spec fn create_sent(before: Engine, after: Engine, req: OrderRequest, now: u64, sent: Seq<Outbound>) -> bool {
    let original = or_zero(req.quantity);
    match promoted(req, (before.orderbook.last_id() + 1) as u64) {
        Err(_) => {
            &&& sent.len() == 0
            &&& after.orderbook.last_id() == before.orderbook.last_id()
            &&& after.orderbook.client_ids() == before.orderbook.client_ids()
            &&& after.orderbook.metadata() == before.orderbook.metadata()
            &&& after.orderbook.user_index() == before.orderbook.user_index()
            &&& after.orderbook.levels() == before.orderbook.levels()
        },
        Ok(o) => {
            &&& crate::orderbook::indexed(before.orderbook, after.orderbook, o)
            &&& after.orderbook.last_id() == o.engine_id
            &&& sent.len() == 2
            &&& sent[0] matches Outbound::Report(rep) && rep.client_id == or_zero(req.client_id)
                && rep.user_id == req.user_id && rep.status == report_status(req.action, 0, original)
                && rep.trades@.len() == 0 && rep.remaining_quantity == original
                && rep.error_message@ == Seq::<char>::empty()
            &&& sent[1] == Outbound::Order(
                OrderUpdate {
                    engine_id: or_zero(req.engine_id),
                    user_id: req.user_id,
                    market: before.config.market_id,
                    price: or_zero(req.price),
                    quantity: original,
                    filled_quantity: 0,
                    side: req.side,
                    status: taker_status(original, original),
                    timestamp: now,
                },
            )
        },
    }
}

} // verus!
