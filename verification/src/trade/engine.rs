//! Price-time priority matching of incoming orders against the book, with
//! self-trade prevention that cancels the resting order.

use vstd::prelude::*;
use std::collections::VecDeque;
use crate::text::to_uppercase;
use crate::trade::model::{
    Action, EngineError, EngineRequest, Order, OrderCancel, OrderCancelAll, OrderRequest, Side,
    Trade,
};
use crate::trade::orderbook::{
    best_price, is_best, level_or_empty, level_push, levels, levels_without, other_side, side_wf,
    Orderbook,
};

verus! {

/// A taker at `taker_price` on `taker_side` can trade at `best`: a bid pays at
/// least the best ask, an ask sells for at most the best bid.
pub open spec fn crosses(taker_side: Side, taker_price: u64, best: u64) -> bool {
    match taker_side {
        Side::Ask => taker_price <= best,
        Side::Bid => taker_price >= best,
    }
}

/// The smaller of two quantities.
pub open spec fn min_qty(a: u64, b: u64) -> u64 {
    if a <= b {
        a
    } else {
        b
    }
}

/// `o` with quantity `q`.
pub open spec fn with_quantity(o: Order, q: u64) -> Order {
    Order { quantity: q, ..o }
}

/// The trade of `q` between a taker and a maker at `price`.
pub open spec fn trade_of(taker: Order, maker: Order, price: u64, q: u64) -> Trade {
    Trade {
        maker_id: maker.id,
        taker_id: taker.id,
        price,
        quantity: q,
        taker_side: taker.side,
        maker_side: maker.side,
    }
}

/// Matching a taker against one price level, front to back: a maker of the
/// taker's own user is dropped without trading; otherwise the smaller of the two
/// quantities trades at the level's price, a filled maker leaves, and a partly
/// filled maker stays at the front. Stops when the taker is filled or the level
/// is empty. Gives the level left, the taker left, and the trades in order.
pub open spec fn match_level(level: Seq<Order>, taker: Order, price: u64) -> (
    Seq<Order>,
    Order,
    Seq<Trade>,
)
    decreases level.len(),
{
    if taker.quantity == 0 || level.len() == 0 {
        (level, taker, Seq::empty())
    } else {
        let maker = level[0];
        let rest = level.subrange(1, level.len() as int);
        if taker.user_id == maker.user_id {
            match_level(rest, taker, price)
        } else {
            let q = min_qty(taker.quantity, maker.quantity);
            let trade = trade_of(taker, maker, price, q);
            let taker2 = with_quantity(taker, (taker.quantity - q) as u64);
            if maker.quantity == q {
                let r = match_level(rest, taker2, price);
                (r.0, r.1, seq![trade] + r.2)
            } else {
                (seq![with_quantity(maker, (maker.quantity - q) as u64)] + rest, taker2, seq![trade])
            }
        }
    }
}

/// The levels of a side once the level at `p` has become `level`: it goes when empty.
pub open spec fn set_level(lv: Map<u64, Seq<Order>>, p: u64, level: Seq<Order>) -> Map<
    u64,
    Seq<Order>,
> {
    if level.len() == 0 {
        lv.remove(p)
    } else {
        lv.insert(p, level)
    }
}

/// Matching a taker against the opposite side `opp`: while the taker has
/// quantity and the best opposite price crosses its limit, match it against
/// that level. `fuel` bounds the number of levels visited. Gives the opposite
/// side left, the taker left, and all trades in order.
pub open spec fn match_book(opp: Map<u64, Seq<Order>>, taker: Order, fuel: nat) -> (
    Map<u64, Seq<Order>>,
    Order,
    Seq<Trade>,
)
    decreases fuel,
{
    if taker.quantity == 0 || fuel == 0 {
        (opp, taker, Seq::empty())
    } else {
        match best_price(opp, other_side(taker.side)) {
            Some(p) => {
                if crosses(taker.side, taker.price, p) {
                    let l = match_level(opp[p], taker, p);
                    let r = match_book(set_level(opp, p, l.0), l.1, (fuel - 1) as nat);
                    (r.0, r.1, l.2 + r.2)
                } else {
                    (opp, taker, Seq::empty())
                }
            },
            None => (opp, taker, Seq::empty()),
        }
    }
}

/// The fuel that lets [`match_book`] visit every level of `opp`.
pub open spec fn full_fuel(opp: Map<u64, Seq<Order>>) -> nat {
    opp.dom().len() + 1
}

/// Matching a taker against the opposite side with enough fuel for every level.
pub open spec fn match_taker(opp: Map<u64, Seq<Order>>, taker: Order) -> (
    Map<u64, Seq<Order>>,
    Order,
    Seq<Trade>,
) {
    match_book(opp, taker, full_fuel(opp))
}

/// After matching one level, the taker is either filled or the level is used up;
/// the taker keeps everything but its quantity, which does not grow.
pub proof fn lemma_match_level_shape(level: Seq<Order>, taker: Order, price: u64)
    ensures
        ({
            let r = match_level(level, taker, price);
            &&& r.1.quantity > 0 ==> r.0.len() == 0
            &&& r.1 == with_quantity(taker, r.1.quantity)
            &&& r.1.quantity <= taker.quantity
            &&& r.0.len() <= level.len()
        }),
    decreases level.len(),
{
    if taker.quantity == 0 || level.len() == 0 {
    } else {
        let maker = level[0];
        let rest = level.subrange(1, level.len() as int);
        if taker.user_id == maker.user_id {
            lemma_match_level_shape(rest, taker, price);
        } else {
            let q = min_qty(taker.quantity, maker.quantity);
            let taker2 = with_quantity(taker, (taker.quantity - q) as u64);
            if maker.quantity == q {
                lemma_match_level_shape(rest, taker2, price);
            }
        }
    }
}

/// Every order of a level rests at `price` on `side`.
pub open spec fn all_at(level: Seq<Order>, price: u64, side: Side) -> bool {
    forall|i: int| #![trigger level[i]] 0 <= i < level.len() ==> level[i].price == price && level[i].side == side
}

/// Matching a level keeps every order left in it at the level's price and side.
pub proof fn lemma_match_level_keeps(level: Seq<Order>, taker: Order, price: u64, side: Side)
    requires
        all_at(level, price, side),
    ensures
        all_at(match_level(level, taker, price).0, price, side),
    decreases level.len(),
{
    if taker.quantity == 0 || level.len() == 0 {
    } else {
        let maker = level[0];
        let rest = level.subrange(1, level.len() as int);
        assert forall|i: int| 0 <= i < rest.len() implies rest[i].price == price && rest[i].side == side by {
            assert(rest[i] == level[i + 1]);
        }
        if taker.user_id == maker.user_id {
            lemma_match_level_keeps(rest, taker, price, side);
        } else {
            let q = min_qty(taker.quantity, maker.quantity);
            let taker2 = with_quantity(taker, (taker.quantity - q) as u64);
            if maker.quantity == q {
                lemma_match_level_keeps(rest, taker2, price, side);
            } else {
                let r0 = seq![with_quantity(maker, (maker.quantity - q) as u64)] + rest;
                assert forall|i: int| 0 <= i < r0.len() implies r0[i].price == price && r0[i].side == side by {
                    if i > 0 {
                        assert(r0[i] == rest[i - 1]);
                    }
                }
            }
        }
    }
}

/// The single-market matching engine.
pub struct MatchingEngine {
    pub orderbook: Orderbook,
    pub current_order_id: u64,
    pub asset_pair: String,
}

impl MatchingEngine {
    /// The book.
    pub open spec fn book(&self) -> Orderbook {
        self.orderbook
    }

    /// The market's pair name.
    pub open spec fn pair(&self) -> String {
        self.asset_pair
    }

    /// The id the next created order gets.
    pub open spec fn next_order_id(&self) -> u64 {
        self.current_order_id
    }

    /// An engine with an empty book for `asset_pair` (kept in upper case);
    /// order ids start at 1.
    pub fn new(asset_pair: String) -> (r: Self)
        ensures
            r.book().wf(),
            r.book().bid_levels() == Map::<u64, Seq<Order>>::empty(),
            r.book().ask_levels() == Map::<u64, Seq<Order>>::empty(),
            r.book().lookup() == Map::<u64, crate::trade::model::OrderMetadata>::empty(),
            r.next_order_id() == 1,
            r.pair()@ == crate::text::uppercase(asset_pair@),
    {
        Self {
            orderbook: Orderbook::new(),
            current_order_id: 1,
            asset_pair: to_uppercase(asset_pair.as_str()),
        }
    }

    /// The id the next created order gets.
    pub fn current_order_id(&self) -> (r: u64)
        ensures
            r == self.next_order_id(),
    {
        self.current_order_id
    }

    /// Hands out the next order id.
    fn next_id(&mut self) -> (r: u64)
        requires
            old(self).next_order_id() < u64::MAX,
        ensures
            r == old(self).next_order_id(),
            final(self).next_order_id() == r + 1,
            final(self).book() == old(self).book(),
            final(self).pair() == old(self).pair(),
    {
        let id = self.current_order_id;
        self.current_order_id += 1;
        id
    }

    /// Whether a taker at `taker_price` on `side` trades with the best opposite price.
    fn is_match(&self, taker_price: u64, best_price: u64, side: Side) -> (r: bool)
        ensures
            r == crosses(side, taker_price, best_price),
    {
        match side {
            Side::Ask => taker_price <= best_price,
            Side::Bid => taker_price >= best_price,
        }
    }

    /// Handles one order: a create is matched (and what is left rests), a cancel
    /// takes the order with the request's `engine_id` out of the book, and a
    /// cancel-all changes nothing.
    pub fn process_order(&mut self, order: Order)
        requires
            old(self).book().wf(),
        ensures
            final(self).book().wf(),
            final(self).next_order_id() == old(self).next_order_id(),
            order.action == Action::Create ==> create_outcome(old(self).book(), final(self).book(), order),
            order.action == Action::Cancel ==> cancel_outcome(old(self).book(), final(self).book(), order.engine_id),
            order.action == Action::CancelAll ==> final(self).book() == old(self).book(),
    {
        match order.action {
            Action::Create => {
                let mut trades = Vec::new();
                self.process_create_order(order, &mut trades);
            },
            Action::Cancel => {
                self.process_cancel(
                    OrderCancel {
                        user_id: order.user_id,
                        client_id: order.client_id,
                        engine_id: order.engine_id,
                    },
                );
            },
            Action::CancelAll => {},
        }
    }

    /// Matches a taker against the book and rests what is left of it.
    ///
    /// While the taker has quantity and the best opposite price crosses its
    /// limit, it trades with the orders at that level in arrival order; a resting
    /// order of the same user is cancelled instead of traded with; emptied levels
    /// leave the book. The trades are appended to `trades` in the order they
    /// happen; a taker with quantity left joins the back of its price level.
    pub fn process_create_order(&mut self, taker_order: Order, trades: &mut Vec<Trade>)
        requires
            old(self).book().wf(),
        ensures
            final(self).book().wf(),
            final(self).next_order_id() == old(self).next_order_id(),
            final(self).pair() == old(self).pair(),
            ({
                let r = match_taker(old(self).book().side_levels(other_side(taker_order.side)), taker_order);
                &&& final(trades)@ == old(trades)@ + r.2
                &&& create_outcome(old(self).book(), final(self).book(), taker_order)
            }),
    {
        let ghost book0 = self.orderbook;
        let ghost trades0 = trades@;
        let side = taker_order.side;
        let opp_side = match side {
            Side::Bid => Side::Ask,
            Side::Ask => Side::Bid,
        };
        let ghost opp0 = book0.side_levels(opp_side);
        let ghost result = match_taker(opp0, taker_order);
        let ghost mut fuel: nat = full_fuel(opp0);
        let mut taker = taker_order;
        loop
            invariant_except_break
                self.orderbook.wf(),
                self.orderbook.side_levels(side) == book0.side_levels(side),
                self.orderbook.lookup() == book0.lookup(),
                self.next_order_id() == old(self).next_order_id(),
                self.asset_pair == old(self).pair(),
                opp_side == other_side(side),
                side == taker_order.side,
                taker == with_quantity(taker_order, taker.quantity),
                fuel >= self.orderbook.side_levels(opp_side).dom().len() + (if taker.quantity > 0 {
                    1int
                } else {
                    0int
                }),
                ({
                    let m = match_book(self.orderbook.side_levels(opp_side), taker, fuel);
                    &&& m.0 == result.0
                    &&& m.1 == result.1
                    &&& trades@ + m.2 == trades0 + result.2
                }),
            ensures
                self.orderbook.wf(),
                self.orderbook.side_levels(side) == book0.side_levels(side),
                self.orderbook.lookup() == book0.lookup(),
                self.next_order_id() == old(self).next_order_id(),
                self.asset_pair == old(self).pair(),
                self.orderbook.side_levels(opp_side) == result.0,
                taker == result.1,
                trades@ == trades0 + result.2,
                taker == with_quantity(taker_order, taker.quantity),
                side == taker_order.side,
            decreases fuel,
        {
            assert(taker.side == side);
            if taker.quantity == 0 {
                proof {
                    assert(trades@ =~= trades0 + result.2);
                }
                break;
            }
            let best = match side {
                Side::Bid => self.orderbook.best_ask(),
                Side::Ask => self.orderbook.best_bid(),
            };
            assert(best == best_price(self.book().side_levels(opp_side), opp_side));
            let price = match best {
                Some(p) => {
                    if self.is_match(taker.price, p, side) {
                        p
                    } else {
                        proof {
                            assert(trades@ =~= trades0 + result.2);
                        }
                        break;
                    }
                },
                None => {
                    proof {
                        assert(trades@ =~= trades0 + result.2);
                    }
                    break;
                },
            };
            let ghost opp = self.orderbook.side_levels(opp_side);
            proof {
                assert(is_best(opp, opp_side, price)) by {
                    let c = choose|q: u64| is_best(opp, opp_side, q);
                    assert(is_best(opp, opp_side, c));
                }
                assert(opp.contains_key(price));
                assert(opp.dom().contains(price));
                vstd::set_lib::lemma_set_empty_equivalency_len(opp.dom());
                assert(fuel > 0);
            }
            let mut level = self.take_level(price, opp_side);
            let ghost lvl0 = level@;
            let ghost taker_before = taker;
            let ghost lres = match_level(lvl0, taker_before, price);
            let ghost trades_before = trades@;
            while taker.quantity > 0 && level.len() > 0
                invariant
                    taker == with_quantity(taker_order, taker.quantity),
                    ({
                        let m = match_level(level@, taker, price);
                        &&& m.0 == lres.0
                        &&& m.1 == lres.1
                        &&& trades@ + m.2 == trades_before + lres.2
                    }),
                decreases level@.len() * 2 + (if taker.quantity > 0 {
                    1int
                } else {
                    0int
                }),
            {
                let ghost lv = level@;
                let ghost t_prev = taker;
                let ghost tr_prev = trades@;
                let maker = level.pop_front().unwrap();
                if taker.is_self_trade(&maker) {
                    continue;
                }
                let match_quantity = if taker.quantity <= maker.quantity {
                    taker.quantity
                } else {
                    maker.quantity
                };
                taker.quantity = taker.quantity - match_quantity;
                let maker_left = maker.quantity - match_quantity;
                trades.push(
                    Trade {
                        maker_id: maker.id,
                        taker_id: taker.id,
                        price,
                        quantity: match_quantity,
                        taker_side: taker.side,
                        maker_side: maker.side,
                    },
                );
                if maker_left != 0 {
                    let mut rest_maker = maker;
                    rest_maker.quantity = maker_left;
                    level.push_front(rest_maker);
                }
                proof {
                    let trade = trade_of(t_prev, maker, price, match_quantity);
                    assert(trades@ == tr_prev.push(trade));
                    assert(match_quantity == min_qty(t_prev.quantity, maker.quantity));
                    assert(taker == with_quantity(t_prev, (t_prev.quantity - match_quantity) as u64));
                    let m_old = match_level(lv, t_prev, price);
                    let m_new = match_level(level@, taker, price);
                    if maker_left == 0 {
                        assert(level@ == lv.subrange(1, lv.len() as int));
                        assert(m_old.2 == seq![trade] + m_new.2);
                    } else {
                        assert(taker.quantity == 0);
                        assert(m_old.2 == seq![trade]);
                    }
                    assert(trades@ + m_new.2 =~= tr_prev + m_old.2);
                }
            }
            proof {
                lemma_match_level_shape(lvl0, taker_before, price);
                lemma_match_level_keeps(lvl0, taker_before, price, opp_side);
                assert(trades@ =~= trades_before + lres.2);
                assert(level@ == lres.0);
            }
            self.put_level(price, opp_side, level);
            proof {
                let new_opp = self.orderbook.side_levels(opp_side);
                assert(new_opp =~= set_level(opp, price, lres.0));
                let mb_old = match_book(opp, taker_before, fuel);
                assert(mb_old.2 == lres.2 + match_book(new_opp, taker, (fuel - 1) as nat).2);
                if lres.0.len() == 0 {
                    assert(new_opp.dom() =~= opp.dom().remove(price));
                } else {
                    assert(new_opp.dom() =~= opp.dom());
                }
                assert(trades@ + match_book(new_opp, taker, (fuel - 1) as nat).2 =~= trades0 + result.2);
                fuel = (fuel - 1) as nat;
            }
        }
        assert(trades@ == trades0 + result.2);
        assert(opp_side == other_side(taker_order.side));
        assert(result == match_taker(old(self).book().side_levels(other_side(taker_order.side)), taker_order));
        if taker.quantity > 0 {
            let ghost before_add = self.orderbook;
            self.orderbook.add_order(taker);
            assert(taker.side == side);
            assert(self.orderbook.side_levels(opp_side) == before_add.side_levels(opp_side)) by {
                match side {
                    Side::Bid => {},
                    Side::Ask => {},
                }
            }
            assert(self.book().side_levels(opp_side) == result.0);
            assert(self.book().side_levels(side) == level_push(book0.side_levels(side), result.1));
        } else {
            assert(self.book().side_levels(opp_side) == result.0);
        }
    }

    /// Takes the level at `price` on `side` out of the book.
    fn take_level(&mut self, price: u64, side: Side) -> (r: VecDeque<Order>)
        requires
            old(self).book().side_levels(side).contains_key(price),
        ensures
            r@ == old(self).book().side_levels(side)[price],
            final(self).book().side_levels(side) == old(self).book().side_levels(side).remove(price),
            final(self).book().side_levels(other_side(side)) == old(self).book().side_levels(other_side(side)),
            final(self).book().lookup() == old(self).book().lookup(),
            final(self).next_order_id() == old(self).next_order_id(),
            final(self).pair() == old(self).pair(),
    {
        let r = match side {
            Side::Bid => self.orderbook.bids.remove(&price),
            Side::Ask => self.orderbook.asks.remove(&price),
        };
        assert(self.orderbook.side_levels(side) =~= old(self).book().side_levels(side).remove(price));
        r.unwrap()
    }

    /// Puts a level back at `price` on `side`, unless it is empty.
    fn put_level(&mut self, price: u64, side: Side, level: VecDeque<Order>)
        requires
            !old(self).book().side_levels(side).contains_key(price),
        ensures
            final(self).book().side_levels(side) == (if level@.len() == 0 {
                old(self).book().side_levels(side)
            } else {
                old(self).book().side_levels(side).insert(price, level@)
            }),
            final(self).book().side_levels(other_side(side)) == old(self).book().side_levels(other_side(side)),
            final(self).book().lookup() == old(self).book().lookup(),
            final(self).next_order_id() == old(self).next_order_id(),
            final(self).pair() == old(self).pair(),
    {
        if level.len() > 0 {
            match side {
                Side::Bid => {
                    self.orderbook.bids.insert(price, level);
                },
                Side::Ask => {
                    self.orderbook.asks.insert(price, level);
                },
            };
            assert(self.orderbook.side_levels(side) =~= old(self).book().side_levels(side).insert(price, level@));
        }
    }

    /// Cancels the order with the request's engine id.
    pub fn process_cancel(&mut self, cancel_order: OrderCancel)
        requires
            old(self).book().wf(),
        ensures
            final(self).book().wf(),
            cancel_outcome(old(self).book(), final(self).book(), cancel_order.engine_id),
            final(self).next_order_id() == old(self).next_order_id(),
            final(self).pair() == old(self).pair(),
    {
        self.orderbook.cancel_order(cancel_order.engine_id);
    }

    /// Cancels the order with id `order_id`.
    pub fn process_cancel_by_id(&mut self, order_id: u64)
        requires
            old(self).book().wf(),
        ensures
            final(self).book().wf(),
            cancel_outcome(old(self).book(), final(self).book(), order_id),
            final(self).next_order_id() == old(self).next_order_id(),
            final(self).pair() == old(self).pair(),
    {
        self.orderbook.cancel_order(order_id);
    }

    /// Sorts a request by its action; a create gets the next order id, which
    /// becomes both its id and its engine id.
    pub fn create_engine_order_id_if_it_is_create_else_leave(&mut self, req: OrderRequest) -> (r:
        Result<EngineRequest, EngineError>)
        requires
            req.action == Action::Create ==> old(self).next_order_id() < u64::MAX,
        ensures
            final(self).book() == old(self).book(),
            final(self).pair() == old(self).pair(),
            match req.action {
                Action::Create => {
                    &&& final(self).next_order_id() == old(self).next_order_id() + 1
                    &&& r == Ok::<EngineRequest, EngineError>(
                        EngineRequest::Create(
                            Order {
                                id: old(self).next_order_id(),
                                user_id: req.user_id,
                                price: req.price,
                                quantity: req.quantity,
                                side: req.side,
                                action: req.action,
                                order_type: req.order_type,
                                client_id: req.client_id,
                                engine_id: old(self).next_order_id(),
                            },
                        ),
                    )
                },
                Action::Cancel => {
                    &&& final(self).next_order_id() == old(self).next_order_id()
                    &&& r == Ok::<EngineRequest, EngineError>(
                        EngineRequest::Cancel(
                            OrderCancel {
                                user_id: req.user_id,
                                client_id: req.client_id,
                                engine_id: req.engine_id,
                            },
                        ),
                    )
                },
                Action::CancelAll => {
                    &&& final(self).next_order_id() == old(self).next_order_id()
                    &&& r == Ok::<EngineRequest, EngineError>(
                        EngineRequest::CancelAll(OrderCancelAll { user_id: req.user_id }),
                    )
                },
            },
    {
        match req.action {
            Action::Create => {
                let order_id = self.next_id();
                let taker_order = Order {
                    id: order_id,
                    user_id: req.user_id,
                    price: req.price,
                    quantity: req.quantity,
                    side: req.side,
                    action: req.action,
                    order_type: req.order_type,
                    client_id: req.client_id,
                    engine_id: order_id,
                };
                Ok(EngineRequest::Create(taker_order))
            },
            Action::Cancel => {
                let cancel_order = OrderCancel {
                    user_id: req.user_id,
                    client_id: req.client_id,
                    engine_id: req.engine_id,
                };
                Ok(EngineRequest::Cancel(cancel_order))
            },
            Action::CancelAll => {
                let cancel_all_order = OrderCancelAll { user_id: req.user_id };
                Ok(EngineRequest::CancelAll(cancel_all_order))
            },
        }
    }
}

/// The book after a create: the opposite side is what matching leaves; a taker
/// with quantity left rests at the back of its level and enters the index;
/// otherwise the taker's side and the index are unchanged.
pub open spec fn create_outcome(before: Orderbook, after: Orderbook, taker: Order) -> bool {
    let opp_side = other_side(taker.side);
    let r = match_taker(before.side_levels(opp_side), taker);
    &&& after.side_levels(opp_side) == r.0
    &&& if r.1.quantity > 0 {
        &&& after.side_levels(taker.side) == level_push(before.side_levels(taker.side), r.1)
        &&& after.lookup() == before.lookup().insert(
            r.1.id,
            crate::trade::model::OrderMetadata { price: r.1.price, side: r.1.side },
        )
    } else {
        &&& after.side_levels(taker.side) == before.side_levels(taker.side)
        &&& after.lookup() == before.lookup()
    }
}

/// The book after cancelling `id`: see [`Orderbook::cancel_order`].
pub open spec fn cancel_outcome(before: Orderbook, after: Orderbook, id: u64) -> bool {
    match before.lookup().get(id) {
        Some(meta) => {
            &&& after.lookup() == before.lookup().remove(id)
            &&& after.side_levels(meta.side) == levels_without(
                before.side_levels(meta.side),
                meta.price,
                id,
            )
            &&& after.side_levels(other_side(meta.side)) == before.side_levels(other_side(meta.side))
        },
        None => {
            &&& after.lookup() == before.lookup()
            &&& after.bid_levels() == before.bid_levels()
            &&& after.ask_levels() == before.ask_levels()
        },
    }
}

} // verus!
