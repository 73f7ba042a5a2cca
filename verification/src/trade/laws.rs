//! What matching promises of every order book and every taker.

use vstd::prelude::*;
use crate::trade::model::{Action, Order, Side, Trade};
use crate::trade::orderbook::{
    best_price, first_index_of, is_best, level_or_empty, level_push, other_side, side_wf, Orderbook,
};
use crate::trade::engine::{
    all_at, crosses, lemma_match_level_keeps, lemma_match_level_shape, match_book, match_level,
    match_taker, min_qty, set_level, with_quantity, full_fuel, create_outcome, cancel_outcome,
};

verus! {

/// The total quantity of a sequence of trades.
pub open spec fn traded_quantity(trades: Seq<Trade>) -> int
    decreases trades.len(),
{
    if trades.len() == 0 {
        0
    } else {
        trades[0].quantity + traded_quantity(trades.subrange(1, trades.len() as int))
    }
}

/// The total quantity of two runs of trades is the sum of their totals.
pub proof fn lemma_traded_quantity_concat(a: Seq<Trade>, b: Seq<Trade>)
    ensures
        traded_quantity(a + b) == traded_quantity(a) + traded_quantity(b),
    decreases a.len(),
{
    if a.len() == 0 {
        assert(a + b =~= b);
    } else {
        lemma_traded_quantity_concat(a.subrange(1, a.len() as int), b);
        assert((a + b).subrange(1, (a + b).len() as int) =~= a.subrange(1, a.len() as int) + b);
    }
}

proof fn lemma_level_conserves(level: Seq<Order>, taker: Order, price: u64)
    ensures
        ({
            let r = match_level(level, taker, price);
            taker.quantity == r.1.quantity + traded_quantity(r.2)
        }),
    decreases level.len(),
{
    if taker.quantity == 0 || level.len() == 0 {
    } else {
        let maker = level[0];
        let rest = level.subrange(1, level.len() as int);
        if taker.user_id == maker.user_id {
            lemma_level_conserves(rest, taker, price);
        } else {
            let q = min_qty(taker.quantity, maker.quantity);
            let taker2 = with_quantity(taker, (taker.quantity - q) as u64);
            let r = match_level(level, taker, price);
            if maker.quantity == q {
                lemma_level_conserves(rest, taker2, price);
                let r2 = match_level(rest, taker2, price);
                assert(r.2 == seq![r.2[0]] + r2.2);
                let t = r.2[0];
                lemma_traded_quantity_concat(seq![t], r2.2);
                assert(t.quantity == q);
                assert(traded_quantity(seq![t]) == q) by {
                    assert(seq![t].subrange(1, 1) =~= Seq::<Trade>::empty());
                    assert(traded_quantity(Seq::<Trade>::empty()) == 0);
                }
            } else {
                assert(r.2.subrange(1, 1) =~= Seq::<Trade>::empty());
                assert(traded_quantity(Seq::<Trade>::empty()) == 0);
            }
        }
    }
}

proof fn lemma_book_conserves(opp: Map<u64, Seq<Order>>, taker: Order, fuel: nat)
    ensures
        ({
            let r = match_book(opp, taker, fuel);
            taker.quantity == r.1.quantity + traded_quantity(r.2)
        }),
    decreases fuel,
{
    if taker.quantity == 0 || fuel == 0 {
    } else {
        match best_price(opp, other_side(taker.side)) {
            Some(p) => {
                if crosses(taker.side, taker.price, p) {
                    let l = match_level(opp[p], taker, p);
                    lemma_level_conserves(opp[p], taker, p);
                    lemma_book_conserves(set_level(opp, p, l.0), l.1, (fuel - 1) as nat);
                    let r = match_book(set_level(opp, p, l.0), l.1, (fuel - 1) as nat);
                    lemma_traded_quantity_concat(l.2, r.2);
                }
            },
            None => {},
        }
    }
}

/// Quantity is conserved: what the taker had is what it has left plus what it traded.
pub proof fn law_quantity_conserved(opp: Map<u64, Seq<Order>>, taker: Order)
    ensures
        ({
            let r = match_taker(opp, taker);
            taker.quantity == r.1.quantity + traded_quantity(r.2)
        }),
{
    lemma_book_conserves(opp, taker, full_fuel(opp));
}

/// A trade of a taker against side `side`: at a price, with the taker's id and
/// side, against a maker of `side`.
pub open spec fn trade_from(t: Trade, taker: Order, side: Side) -> bool {
    &&& t.taker_id == taker.id
    &&& t.taker_side == taker.side
    &&& t.maker_side == side
}

/// Every trade of a run is by the taker `taker` against side `side` at `price`.
pub open spec fn trades_at(ts: Seq<Trade>, taker: Order, side: Side, price: u64) -> bool {
    forall|i: int| 0 <= i < ts.len() ==> #[trigger] trade_at(ts[i], taker, side, price)
}

/// A trade by the taker against side `side` at `price`.
pub open spec fn trade_at(t: Trade, taker: Order, side: Side, price: u64) -> bool {
    trade_from(t, taker, side) && t.price == price
}

proof fn lemma_level_trades(level: Seq<Order>, taker: Order, price: u64, side: Side)
    requires
        all_at(level, price, side),
    ensures
        trades_at(match_level(level, taker, price).2, taker, side, price),
    decreases level.len(),
{
    let r = match_level(level, taker, price);
    if taker.quantity == 0 || level.len() == 0 {
        assert(r.2.len() == 0);
        assert(trades_at(r.2, taker, side, price));
    } else {
        let maker = level[0];
        let rest = level.subrange(1, level.len() as int);
        assert(all_at(rest, price, side)) by {
            assert forall|i: int| 0 <= i < rest.len() implies rest[i].price == price && rest[i].side
                == side by {
                assert(rest[i] == level[i + 1]);
            }
        }
        assert(maker.side == side && maker.price == price);
        if taker.user_id == maker.user_id {
            lemma_level_trades(rest, taker, price, side);
            assert(r == match_level(rest, taker, price));
            assert(trades_at(r.2, taker, side, price));
        } else {
            let q = min_qty(taker.quantity, maker.quantity);
            let taker2 = with_quantity(taker, (taker.quantity - q) as u64);
            let trade = crate::trade::engine::trade_of(taker, maker, price, q);
            assert(trade_from(trade, taker, side) && trade.price == price);
            if maker.quantity == q {
                lemma_level_trades(rest, taker2, price, side);
                let r2 = match_level(rest, taker2, price);
                assert(r.2 == seq![trade] + r2.2);
                assert forall|i: int| 0 <= i < r.2.len() implies #[trigger] trade_at(
                    r.2[i],
                    taker,
                    side,
                    price,
                ) by {
                    if i > 0 {
                        assert(r.2[i] == r2.2[i - 1]);
                        assert(trade_at(r2.2[i - 1], taker2, side, price));
                    } else {
                        assert(r.2[i] == trade);
                    }
                }
                assert(trades_at(r.2, taker, side, price));
            } else {
                assert(r.2 == seq![trade]);
                assert forall|i: int| 0 <= i < r.2.len() implies #[trigger] trade_at(
                    r.2[i],
                    taker,
                    side,
                    price,
                ) by {
                    assert(r.2[i] == trade);
                }
                assert(trades_at(r.2, taker, side, price));
            }
        }
    }
}

/// A trade of the taker against the other side of `opp`, at a price level of
/// `opp` that the taker's limit allows.
pub open spec fn trade_in_book(t: Trade, taker: Order, opp: Map<u64, Seq<Order>>) -> bool {
    &&& trade_from(t, taker, other_side(taker.side))
    &&& opp.contains_key(t.price)
    &&& crosses(taker.side, taker.price, t.price)
}

/// After one level is matched, the side keeps its shape.
proof fn lemma_set_level_wf(opp: Map<u64, Seq<Order>>, side: Side, p: u64, taker: Order)
    requires
        side_wf(opp, side),
        opp.contains_key(p),
    ensures
        side_wf(set_level(opp, p, match_level(opp[p], taker, p).0), side),
        set_level(opp, p, match_level(opp[p], taker, p).0).dom().subset_of(opp.dom()),
{
    let l = match_level(opp[p], taker, p);
    assert(all_at(opp[p], p, side));
    lemma_match_level_keeps(opp[p], taker, p, side);
    let n = set_level(opp, p, l.0);
    if l.0.len() == 0 {
        assert(n.dom() =~= opp.dom().remove(p));
    } else {
        assert(n.dom() =~= opp.dom().insert(p));
        assert forall|q: u64, i: int|
            #![trigger n[q][i]]
            n.contains_key(q) && 0 <= i < n[q].len() implies n[q][i].price == q && n[q][i].side
                == side by {
            if q == p {
                assert(n[q] == l.0);
            }
        }
    }
}

proof fn lemma_book_trades(opp: Map<u64, Seq<Order>>, taker: Order, fuel: nat)
    requires
        side_wf(opp, other_side(taker.side)),
    ensures
        ({
            let r = match_book(opp, taker, fuel);
            &&& forall|i: int| 0 <= i < r.2.len() ==> #[trigger] trade_in_book(r.2[i], taker, opp)
            &&& side_wf(r.0, other_side(taker.side))
            &&& r.0.dom().subset_of(opp.dom())
        }),
    decreases fuel,
{
    let side = other_side(taker.side);
    if taker.quantity == 0 || fuel == 0 {
    } else {
        match best_price(opp, side) {
            Some(p) => {
                if crosses(taker.side, taker.price, p) {
                    assert(is_best(opp, side, p));
                    let l = match_level(opp[p], taker, p);
                    lemma_match_level_shape(opp[p], taker, p);
                    lemma_level_trades(opp[p], taker, p, side);
                    lemma_set_level_wf(opp, side, p, taker);
                    let n = set_level(opp, p, l.0);
                    lemma_book_trades(n, l.1, (fuel - 1) as nat);
                    let r2 = match_book(n, l.1, (fuel - 1) as nat);
                    let r = match_book(opp, taker, fuel);
                    assert(trades_at(l.2, taker, side, p));
                    assert(r.2 == l.2 + r2.2);
                    assert forall|i: int| 0 <= i < r.2.len() implies #[trigger] trade_in_book(
                        r.2[i],
                        taker,
                        opp,
                    ) by {
                        if i < l.2.len() {
                            assert(r.2[i] == l.2[i]);
                            assert(trade_at(l.2[i], taker, side, p));
                        } else {
                            assert(r.2[i] == r2.2[i - l.2.len()]);
                            assert(trade_in_book(r2.2[i - l.2.len()], l.1, n));
                        }
                    }
                }
            },
            None => {},
        }
    }
}

/// Every trade is at a price that the taker's limit allows (a bid never pays
/// more than its price, an ask never sells for less), at a price level that was
/// in the book, for the taker against a maker of the other side; and the
/// opposite side keeps its shape.
pub proof fn law_trades_respect_limit(opp: Map<u64, Seq<Order>>, taker: Order)
    requires
        side_wf(opp, other_side(taker.side)),
    ensures
        ({
            let r = match_taker(opp, taker);
            &&& forall|i: int| 0 <= i < r.2.len() ==> #[trigger] trade_in_book(r.2[i], taker, opp)
            &&& side_wf(r.0, other_side(taker.side))
        }),
{
    lemma_book_trades(opp, taker, full_fuel(opp));
}

proof fn lemma_book_uncrossed(opp: Map<u64, Seq<Order>>, taker: Order, fuel: nat)
    requires
        side_wf(opp, other_side(taker.side)),
        fuel >= opp.dom().len() + 1,
    ensures
        ({
            let r = match_book(opp, taker, fuel);
            r.1.quantity > 0 ==> match best_price(r.0, other_side(taker.side)) {
                Some(b) => !crosses(taker.side, taker.price, b),
                None => true,
            }
        }),
    decreases fuel,
{
    let side = other_side(taker.side);
    if taker.quantity == 0 {
    } else {
        match best_price(opp, side) {
            Some(p) => {
                if crosses(taker.side, taker.price, p) {
                    assert(is_best(opp, side, p));
                    let l = match_level(opp[p], taker, p);
                    lemma_match_level_shape(opp[p], taker, p);
                    lemma_set_level_wf(opp, side, p, taker);
                    let n = set_level(opp, p, l.0);
                    if l.1.quantity > 0 {
                        assert(n.dom() =~= opp.dom().remove(p));
                        lemma_book_uncrossed(n, l.1, (fuel - 1) as nat);
                    }
                }
            },
            None => {},
        }
    }
}

/// A taker that keeps quantity after matching no longer crosses the book: the
/// opposite side then has no price its limit allows.
pub proof fn law_rest_does_not_cross(opp: Map<u64, Seq<Order>>, taker: Order)
    requires
        side_wf(opp, other_side(taker.side)),
    ensures
        ({
            let r = match_taker(opp, taker);
            r.1.quantity > 0 ==> match best_price(r.0, other_side(taker.side)) {
                Some(b) => !crosses(taker.side, taker.price, b),
                None => true,
            }
        }),
{
    lemma_book_uncrossed(opp, taker, full_fuel(opp));
}

/// Trade prices in arrival order: never better for the taker than an earlier
/// one (rising for a bid, falling for an ask).
pub open spec fn prices_in_priority(trades: Seq<Trade>, taker_side: Side) -> bool {
    forall|i: int, j: int|
        #![trigger trades[i], trades[j]]
        0 <= i < j < trades.len() ==> match taker_side {
            Side::Bid => trades[i].price <= trades[j].price,
            Side::Ask => trades[i].price >= trades[j].price,
        }
}

proof fn lemma_book_priority(opp: Map<u64, Seq<Order>>, taker: Order, fuel: nat)
    requires
        side_wf(opp, other_side(taker.side)),
    ensures
        prices_in_priority(match_book(opp, taker, fuel).2, taker.side),
    decreases fuel,
{
    let side = other_side(taker.side);
    if taker.quantity == 0 || fuel == 0 {
    } else {
        match best_price(opp, side) {
            Some(p) => {
                if crosses(taker.side, taker.price, p) {
                    assert(is_best(opp, side, p));
                    let l = match_level(opp[p], taker, p);
                    lemma_match_level_shape(opp[p], taker, p);
                    lemma_level_trades(opp[p], taker, p, side);
                    lemma_set_level_wf(opp, side, p, taker);
                    let n = set_level(opp, p, l.0);
                    lemma_book_priority(n, l.1, (fuel - 1) as nat);
                    lemma_book_trades(n, l.1, (fuel - 1) as nat);
                    let r2 = match_book(n, l.1, (fuel - 1) as nat);
                    let all = l.2 + r2.2;
                    // every later trade is at a price still in the book, which is no
                    // better than the best price p
                    assert forall|j: int| 0 <= j < r2.2.len() implies match taker.side {
                        Side::Bid => p <= #[trigger] r2.2[j].price,
                        Side::Ask => p >= r2.2[j].price,
                    } by {
                        assert(trade_in_book(r2.2[j], l.1, n));
                        assert(opp.contains_key(r2.2[j].price));
                    }
                    assert forall|i: int, j: int|
                        #![trigger all[i], all[j]]
                        0 <= i < j < all.len() implies match taker.side {
                            Side::Bid => all[i].price <= all[j].price,
                            Side::Ask => all[i].price >= all[j].price,
                        } by {
                        if j < l.2.len() {
                            assert(trade_at(l.2[i], taker, side, p));
                            assert(trade_at(l.2[j], taker, side, p));
                        } else if i < l.2.len() {
                            assert(trade_at(l.2[i], taker, side, p));
                            assert(all[j] == r2.2[j - l.2.len()]);
                        } else {
                            assert(all[i] == r2.2[i - l.2.len()]);
                            assert(all[j] == r2.2[j - l.2.len()]);
                        }
                    }
                }
            },
            None => {},
        }
    }
}

/// Price priority: a taker trades at the best prices first, so trade prices
/// never improve for the taker from one trade to the next.
pub proof fn law_price_priority(opp: Map<u64, Seq<Order>>, taker: Order)
    requires
        side_wf(opp, other_side(taker.side)),
    ensures
        prices_in_priority(match_taker(opp, taker).2, taker.side),
{
    lemma_book_priority(opp, taker, full_fuel(opp));
}

/// The maker of trade `t` is an order of `level` that belongs to another user than `user`.
pub open spec fn maker_in_level(level: Seq<Order>, t: Trade, user: u64) -> bool {
    exists|j: int| 0 <= j < level.len() && #[trigger] level[j].id == t.maker_id && level[j].user_id != user
}

/// The maker of trade `t` is an order resting in `opp` that belongs to another user than `user`.
pub open spec fn maker_in_book(opp: Map<u64, Seq<Order>>, t: Trade, user: u64) -> bool {
    exists|k: u64| #[trigger] opp.contains_key(k) && maker_in_level(opp[k], t, user)
}

proof fn lemma_level_makers(level: Seq<Order>, taker: Order, price: u64)
    ensures
        ({
            let r = match_level(level, taker, price);
            forall|i: int| 0 <= i < r.2.len() ==> #[trigger] maker_in_level(level, r.2[i], taker.user_id)
        }),
    decreases level.len(),
{
    let r = match_level(level, taker, price);
    if taker.quantity == 0 || level.len() == 0 {
    } else {
        let maker = level[0];
        let rest = level.subrange(1, level.len() as int);
        if taker.user_id == maker.user_id {
            lemma_level_makers(rest, taker, price);
            assert forall|i: int| 0 <= i < r.2.len() implies #[trigger] maker_in_level(level, r.2[i], taker.user_id) by {
                let t = r.2[i];
                let r2 = match_level(rest, taker, price);
                assert(r == r2);
                assert(t == r2.2[i]);
                assert(maker_in_level(rest, t, taker.user_id));
                let j = choose|j: int| 0 <= j < rest.len() && #[trigger] rest[j].id == t.maker_id && rest[j].user_id != taker.user_id;
                assert(level[j + 1] == rest[j]);
            }
        } else {
            let q = min_qty(taker.quantity, maker.quantity);
            let taker2 = with_quantity(taker, (taker.quantity - q) as u64);
            let trade = crate::trade::engine::trade_of(taker, maker, price, q);
            assert(maker_in_level(level, trade, taker.user_id)) by {
                assert(level[0].id == trade.maker_id);
            }
            if maker.quantity == q {
                lemma_level_makers(rest, taker2, price);
                let r2 = match_level(rest, taker2, price);
                assert(r.2 == seq![trade] + r2.2);
                assert forall|i: int| 0 <= i < r.2.len() implies #[trigger] maker_in_level(level, r.2[i], taker.user_id) by {
                    if i > 0 {
                        let t = r.2[i];
                        assert(t == r2.2[i - 1]);
                        assert(maker_in_level(rest, t, taker2.user_id));
                        let j = choose|j: int| 0 <= j < rest.len() && #[trigger] rest[j].id == t.maker_id && rest[j].user_id != taker2.user_id;
                        assert(level[j + 1] == rest[j]);
                    } else {
                        assert(r.2[i] == trade);
                    }
                }
            } else {
                assert(r.2 == seq![trade]);
                assert forall|i: int| 0 <= i < r.2.len() implies #[trigger] maker_in_level(level, r.2[i], taker.user_id) by {
                    assert(r.2[i] == trade);
                }
            }
        }
    }
}

proof fn lemma_book_makers(opp: Map<u64, Seq<Order>>, taker: Order, fuel: nat)
    ensures
        ({
            let r = match_book(opp, taker, fuel);
            forall|i: int| 0 <= i < r.2.len() ==> #[trigger] maker_in_book(opp, r.2[i], taker.user_id)
        }),
    decreases fuel,
{
    let side = other_side(taker.side);
    if taker.quantity == 0 || fuel == 0 {
    } else {
        match best_price(opp, side) {
            Some(p) => {
                if crosses(taker.side, taker.price, p) {
                    assert(is_best(opp, side, p));
                    let l = match_level(opp[p], taker, p);
                    lemma_match_level_shape(opp[p], taker, p);
                    lemma_level_makers(opp[p], taker, p);
                    let n = set_level(opp, p, l.0);
                    lemma_book_makers(n, l.1, (fuel - 1) as nat);
                    let r2 = match_book(n, l.1, (fuel - 1) as nat);
                    let r = match_book(opp, taker, fuel);
                    assert(r.2 == l.2 + r2.2);
                    assert forall|i: int| 0 <= i < r.2.len() implies #[trigger] maker_in_book(opp, r.2[i], taker.user_id) by {
                        let t = r.2[i];
                        if i < l.2.len() {
                            assert(t == l.2[i]);
                            assert(maker_in_level(opp[p], t, taker.user_id));
                            assert(opp.contains_key(p));
                        } else {
                            assert(t == r2.2[i - l.2.len()]);
                            assert(maker_in_book(n, t, l.1.user_id));
                            assert(l.1.quantity > 0);
                            assert(n == opp.remove(p));
                            let k = choose|k: u64| #[trigger] n.contains_key(k) && maker_in_level(n[k], t, l.1.user_id);
                            assert(opp.contains_key(k) && opp[k] == n[k]);
                        }
                    }
                }
            },
            None => {},
        }
    }
}

/// Self-trade prevention: every trade is with a resting order of another user;
/// a taker never trades with its own user's orders.
pub proof fn law_no_self_trade(opp: Map<u64, Seq<Order>>, taker: Order)
    ensures
        ({
            let r = match_taker(opp, taker);
            forall|i: int| 0 <= i < r.2.len() ==> #[trigger] maker_in_book(opp, r.2[i], taker.user_id)
        }),
{
    lemma_book_makers(opp, taker, full_fuel(opp));
}

/// What matching leaves of a level: the orders from some position on, in
/// their arrival order, where the first may have had part of its quantity taken.
pub open spec fn is_level_tail(level: Seq<Order>, left: Seq<Order>) -> bool {
    exists|k: int|
        0 <= k <= level.len() && #[trigger] level_tail_at(level, left, k)
}

/// `left` is the tail of `level` from position `k`, its first order possibly reduced.
pub open spec fn level_tail_at(level: Seq<Order>, left: Seq<Order>, k: int) -> bool {
    ||| left == level.subrange(k, level.len() as int)
    ||| (k < level.len() && left.len() == level.len() - k && left[0] == with_quantity(level[k], left[0].quantity)
        && left.subrange(1, left.len() as int) == level.subrange(k + 1, level.len() as int))
}

/// Time priority: within a price level orders are taken strictly from the
/// front. What is left of the level is a tail of it in arrival order; no order
/// is passed over for one that arrived later.
pub proof fn law_time_priority(level: Seq<Order>, taker: Order, price: u64)
    ensures
        is_level_tail(level, match_level(level, taker, price).0),
    decreases level.len(),
{
    let r = match_level(level, taker, price);
    if taker.quantity == 0 || level.len() == 0 {
        assert(level_tail_at(level, r.0, 0)) by {
            assert(level.subrange(0, level.len() as int) =~= level);
        }
    } else {
        let maker = level[0];
        let rest = level.subrange(1, level.len() as int);
        let q = min_qty(taker.quantity, maker.quantity);
        let taker2 = with_quantity(taker, (taker.quantity - q) as u64);
        if taker.user_id == maker.user_id || maker.quantity == q {
            let t2 = if taker.user_id == maker.user_id { taker } else { taker2 };
            law_time_priority(rest, t2, price);
            assert(r.0 == match_level(rest, t2, price).0);
            let k = choose|k: int| 0 <= k <= rest.len() && #[trigger] level_tail_at(rest, r.0, k);
            assert(rest.subrange(k, rest.len() as int) =~= level.subrange(k + 1, level.len() as int));
            if k < rest.len() {
                assert(rest[k] == level[k + 1]);
                assert(rest.subrange(k + 1, rest.len() as int) =~= level.subrange(k + 2, level.len() as int));
            }
            assert(level_tail_at(level, r.0, k + 1));
        } else {
            assert(r.0 == seq![with_quantity(maker, (maker.quantity - q) as u64)] + rest);
            assert(r.0.subrange(1, r.0.len() as int) =~= rest);
            assert(level_tail_at(level, r.0, 0));
        }
    }
}

/// A side with finitely many levels, and at least one, has a best price.
pub proof fn lemma_best_exists(lv: Map<u64, Seq<Order>>, side: Side)
    requires
        lv.dom().finite(),
        lv.dom().len() > 0,
    ensures
        exists|p: u64| is_best(lv, side, p),
    decreases lv.dom().len(),
{
    let x = lv.dom().choose();
    assert(lv.contains_key(x));
    let rest = lv.remove(x);
    assert(rest.dom() =~= lv.dom().remove(x));
    if rest.dom().len() == 0 {
        assert forall|q: u64| #[trigger] lv.contains_key(q) implies q == x by {
            if q != x {
                assert(rest.dom().contains(q));
            }
        }
        assert(is_best(lv, side, x));
    } else {
        lemma_best_exists(rest, side);
        let q = choose|q: u64| is_best(rest, side, q);
        let better = match side {
            Side::Bid => if x <= q { q } else { x },
            Side::Ask => if q <= x { q } else { x },
        };
        assert forall|k: u64| #[trigger] lv.contains_key(k) implies match side {
            Side::Bid => k <= better,
            Side::Ask => better <= k,
        } by {
            if k != x {
                assert(rest.contains_key(k));
            }
        }
        assert(is_best(lv, side, better));
    }
}

/// No bid is at or above any ask.
pub open spec fn uncrossed(bids: Map<u64, Seq<Order>>, asks: Map<u64, Seq<Order>>) -> bool {
    forall|b: u64, a: u64|
        #![trigger bids.contains_key(b), asks.contains_key(a)]
        bids.contains_key(b) && asks.contains_key(a) ==> b < a
}

/// Matching keeps a book uncrossed: when every bid was below every ask before
/// a create, it still is after it, whatever rests.
pub proof fn law_book_stays_uncrossed(before: Orderbook, after: Orderbook, taker: Order)
    requires
        before.wf(),
        uncrossed(before.bid_levels(), before.ask_levels()),
        create_outcome(before, after, taker),
    ensures
        uncrossed(after.bid_levels(), after.ask_levels()),
{
    let opp_side = other_side(taker.side);
    let opp = before.side_levels(opp_side);
    let r = match_taker(opp, taker);
    lemma_book_trades(opp, taker, full_fuel(opp));
    law_rest_does_not_cross(opp, taker);
    lemma_book_conserves(opp, taker, full_fuel(opp));
    let same = before.side_levels(taker.side);
    let p = taker.price;
    assert(r.1 == with_quantity(taker, r.1.quantity)) by {
        lemma_book_shape(opp, taker, full_fuel(opp));
    }
    // the resting taker is below (above) every ask (bid) that is left
    assert forall|a: u64| #[trigger] r.0.contains_key(a) && r.1.quantity > 0 implies match taker.side {
        Side::Bid => p < a,
        Side::Ask => a < p,
    } by {
        assert(r.0.dom().contains(a));
        assert(r.0.dom().len() > 0);
        lemma_best_exists(r.0, opp_side);
        let x = choose|x: u64| is_best(r.0, opp_side, x);
        crate::trade::orderbook::lemma_best_unique(r.0, opp_side, x);
    }
    match taker.side {
        Side::Bid => {
            assert forall|b: u64, a: u64|
                #![trigger after.bid_levels().contains_key(b), after.ask_levels().contains_key(a)]
                after.bid_levels().contains_key(b) && after.ask_levels().contains_key(a) implies b < a by {
                assert(after.ask_levels() == r.0);
                assert(opp.contains_key(a));
                if r.1.quantity > 0 {
                    assert(after.bid_levels() == level_push(same, r.1));
                    if b != p {
                        assert(same.contains_key(b));
                    }
                } else {
                    assert(same.contains_key(b));
                }
            }
        },
        Side::Ask => {
            assert forall|b: u64, a: u64|
                #![trigger after.bid_levels().contains_key(b), after.ask_levels().contains_key(a)]
                after.bid_levels().contains_key(b) && after.ask_levels().contains_key(a) implies b < a by {
                assert(after.bid_levels() == r.0);
                assert(opp.contains_key(b));
                if r.1.quantity > 0 {
                    assert(after.ask_levels() == level_push(same, r.1));
                    if a != p {
                        assert(same.contains_key(a));
                    }
                } else {
                    assert(same.contains_key(a));
                }
            }
        },
    }
}

proof fn lemma_book_shape(opp: Map<u64, Seq<Order>>, taker: Order, fuel: nat)
    ensures
        match_book(opp, taker, fuel).1 == with_quantity(taker, match_book(opp, taker, fuel).1.quantity),
    decreases fuel,
{
    if taker.quantity == 0 || fuel == 0 {
    } else {
        match best_price(opp, other_side(taker.side)) {
            Some(p) => {
                if crosses(taker.side, taker.price, p) {
                    let l = match_level(opp[p], taker, p);
                    lemma_match_level_shape(opp[p], taker, p);
                    lemma_book_shape(set_level(opp, p, l.0), l.1, (fuel - 1) as nat);
                }
            },
            None => {},
        }
    }
}

/// Every order resting on a side has a positive quantity.
pub open spec fn side_positive(lv: Map<u64, Seq<Order>>) -> bool {
    forall|p: u64, i: int|
        #![trigger lv[p][i]]
        lv.contains_key(p) && 0 <= i < lv[p].len() ==> lv[p][i].quantity > 0
}

proof fn lemma_level_positive(level: Seq<Order>, taker: Order, price: u64)
    requires
        forall|i: int| 0 <= i < level.len() ==> (#[trigger] level[i]).quantity > 0,
    ensures
        forall|i: int|
            0 <= i < match_level(level, taker, price).0.len() ==> (#[trigger] match_level(level, taker, price).0[i]).quantity
                > 0,
    decreases level.len(),
{
    if taker.quantity == 0 || level.len() == 0 {
    } else {
        let maker = level[0];
        let rest = level.subrange(1, level.len() as int);
        assert forall|i: int| 0 <= i < rest.len() implies (#[trigger] rest[i]).quantity > 0 by {
            assert(rest[i] == level[i + 1]);
        }
        if taker.user_id == maker.user_id {
            lemma_level_positive(rest, taker, price);
        } else {
            let q = min_qty(taker.quantity, maker.quantity);
            let taker2 = with_quantity(taker, (taker.quantity - q) as u64);
            if maker.quantity == q {
                lemma_level_positive(rest, taker2, price);
            } else {
                let left = seq![with_quantity(maker, (maker.quantity - q) as u64)] + rest;
                assert(match_level(level, taker, price).0 == left);
                assert forall|i: int| 0 <= i < left.len() implies (#[trigger] left[i]).quantity > 0 by {
                    if i > 0 {
                        assert(left[i] == rest[i - 1]);
                    }
                }
            }
        }
    }
}

proof fn lemma_book_positive(opp: Map<u64, Seq<Order>>, taker: Order, fuel: nat)
    requires
        side_positive(opp),
    ensures
        side_positive(match_book(opp, taker, fuel).0),
    decreases fuel,
{
    if taker.quantity == 0 || fuel == 0 {
    } else {
        match best_price(opp, other_side(taker.side)) {
            Some(p) => {
                if crosses(taker.side, taker.price, p) {
                    assert(is_best(opp, other_side(taker.side), p));
                    let l = match_level(opp[p], taker, p);
                    assert forall|i: int| 0 <= i < opp[p].len() implies (#[trigger] opp[p][i]).quantity > 0 by {
                    }
                    lemma_level_positive(opp[p], taker, p);
                    let n = set_level(opp, p, l.0);
                    assert forall|k: u64, i: int| #![trigger n[k][i]] n.contains_key(k) && 0 <= i < n[k].len() implies n[k][i].quantity
                        > 0 by {
                        if k == p {
                            assert(n[k] == l.0);
                        } else {
                            assert(n[k] == opp[k]);
                        }
                    }
                    lemma_book_positive(n, l.1, (fuel - 1) as nat);
                }
            },
            None => {},
        }
    }
}

/// No order rests with a quantity of zero: when every resting order had a
/// positive quantity before a create, every resting order has one after it
/// (partly filled makers keep what is left, filled ones leave, and the taker
/// rests only with quantity left).
pub proof fn law_resting_quantities_positive(before: Orderbook, after: Orderbook, taker: Order)
    requires
        before.wf(),
        side_positive(before.bid_levels()),
        side_positive(before.ask_levels()),
        create_outcome(before, after, taker),
    ensures
        side_positive(after.bid_levels()),
        side_positive(after.ask_levels()),
{
    let opp_side = other_side(taker.side);
    let opp = before.side_levels(opp_side);
    let same = before.side_levels(taker.side);
    let r = match_taker(opp, taker);
    lemma_book_positive(opp, taker, full_fuel(opp));
    assert(side_positive(after.side_levels(taker.side))) by {
        if r.1.quantity > 0 {
            let n = level_push(same, r.1);
            assert forall|k: u64, i: int| #![trigger n[k][i]] n.contains_key(k) && 0 <= i < n[k].len() implies n[k][i].quantity
                > 0 by {
                if k == r.1.price {
                    let old_level = crate::trade::orderbook::level_or_empty(same, k);
                    assert(n[k] == old_level.push(r.1));
                    if i < old_level.len() {
                        assert(same.contains_key(k));
                        assert(n[k][i] == same[k][i]);
                    }
                } else {
                    assert(n[k] == same[k]);
                }
            }
        }
    }
}

/// Self-trade prevention drops only the taker's own orders: matching a taker
/// against a level, every order of another user in that level either trades
/// (it is the maker of a trade) or is still in the level afterwards (same id,
/// same user). An order
/// that leaves the level without trading belongs to the taker's user.
pub proof fn law_self_trade_drops_only_own_orders(level: Seq<Order>, taker: Order, price: u64)
    ensures
        ({
            let r = match_level(level, taker, price);
            forall|j: int|
                0 <= j < level.len() && #[trigger] level[j].user_id != taker.user_id ==> (exists|i: int|
                    0 <= i < r.2.len() && r.2[i].maker_id == level[j].id) || (exists|k: int|
                    0 <= k < r.0.len() && r.0[k].id == level[j].id && r.0[k].user_id == level[j].user_id)
        }),
    decreases level.len(),
{
    let r = match_level(level, taker, price);
    if taker.quantity == 0 || level.len() == 0 {
        assert forall|j: int| 0 <= j < level.len() && #[trigger] level[j].user_id != taker.user_id implies (exists|i: int|
            0 <= i < r.2.len() && r.2[i].maker_id == level[j].id) || (exists|k: int|
            0 <= k < r.0.len() && r.0[k].id == level[j].id && r.0[k].user_id == level[j].user_id) by {
            assert(r.0[j].id == level[j].id);
        }
    } else {
        let maker = level[0];
        let rest = level.subrange(1, level.len() as int);
        if taker.user_id == maker.user_id {
            law_self_trade_drops_only_own_orders(rest, taker, price);
            assert(r == match_level(rest, taker, price));
            assert forall|j: int| 0 <= j < level.len() && #[trigger] level[j].user_id != taker.user_id implies (exists|i: int|
                0 <= i < r.2.len() && r.2[i].maker_id == level[j].id) || (exists|k: int|
                0 <= k < r.0.len() && r.0[k].id == level[j].id && r.0[k].user_id == level[j].user_id) by {
                assert(j > 0);
                assert(rest[j - 1] == level[j]);
                assert(rest[j - 1].user_id != taker.user_id);
            }
        } else {
            let q = min_qty(taker.quantity, maker.quantity);
            let taker2 = with_quantity(taker, (taker.quantity - q) as u64);
            let trade = crate::trade::engine::trade_of(taker, maker, price, q);
            if maker.quantity == q {
                let r2 = match_level(rest, taker2, price);
                law_self_trade_drops_only_own_orders(rest, taker2, price);
                assert(r.0 == r2.0 && r.2 == seq![trade] + r2.2);
                assert forall|j: int| 0 <= j < level.len() && #[trigger] level[j].user_id != taker.user_id implies (exists|i: int|
                    0 <= i < r.2.len() && r.2[i].maker_id == level[j].id) || (exists|k: int|
                    0 <= k < r.0.len() && r.0[k].id == level[j].id && r.0[k].user_id == level[j].user_id) by {
                    if j == 0 {
                        assert(r.2[0] == trade);
                    } else {
                        assert(rest[j - 1] == level[j]);
                        assert(rest[j - 1].user_id != taker2.user_id);
                        if exists|i: int| 0 <= i < r2.2.len() && r2.2[i].maker_id == rest[j - 1].id {
                            let i = choose|i: int| 0 <= i < r2.2.len() && r2.2[i].maker_id == rest[j - 1].id;
                            assert(r.2[i + 1] == r2.2[i]);
                        }
                    }
                }
            } else {
                let left = seq![with_quantity(maker, (maker.quantity - q) as u64)] + rest;
                assert(r.0 == left);
                assert forall|j: int| 0 <= j < level.len() && #[trigger] level[j].user_id != taker.user_id implies (exists|i: int|
                    0 <= i < r.2.len() && r.2[i].maker_id == level[j].id) || (exists|k: int|
                    0 <= k < r.0.len() && r.0[k].id == level[j].id && r.0[k].user_id == level[j].user_id) by {
                    if j == 0 {
                        assert(r.0[0].id == level[0].id && r.0[0].user_id == level[0].user_id);
                    } else {
                        assert(r.0[j] == rest[j - 1]);
                        assert(rest[j - 1] == level[j]);
                    }
                }
            }
        }
    }
}

/// Some order with id `id` rests in the side `lv` (at any level).
pub open spec fn rests_in(lv: Map<u64, Seq<Order>>, id: u64) -> bool {
    exists|p: u64, k: int| lv.contains_key(p) && 0 <= k < lv[p].len() && #[trigger] lv[p][k].id == id
}

/// Some trade of `ts` has `id` as its maker.
pub open spec fn traded_as_maker(ts: Seq<Trade>, id: u64) -> bool {
    exists|i: int| 0 <= i < ts.len() && #[trigger] ts[i].maker_id == id
}

proof fn lemma_book_keeps_others(opp: Map<u64, Seq<Order>>, taker: Order, fuel: nat, p: u64, j: int)
    requires
        opp.contains_key(p),
        0 <= j < opp[p].len(),
        opp[p][j].user_id != taker.user_id,
    ensures
        traded_as_maker(match_book(opp, taker, fuel).2, opp[p][j].id) || rests_in(
            match_book(opp, taker, fuel).0,
            opp[p][j].id,
        ),
    decreases fuel,
{
    let o = opp[p][j];
    let r = match_book(opp, taker, fuel);
    if taker.quantity == 0 || fuel == 0 {
        assert(r.0 == opp);
        assert(r.0[p][j].id == o.id);
    } else {
        match best_price(opp, other_side(taker.side)) {
            Some(b) => {
                if crosses(taker.side, taker.price, b) {
                    let l = match_level(opp[b], taker, b);
                    let n = set_level(opp, b, l.0);
                    let r2 = match_book(n, l.1, (fuel - 1) as nat);
                    assert(r.0 == r2.0 && r.2 == l.2 + r2.2);
                    lemma_match_level_shape(opp[b], taker, b);
                    if p == b {
                        law_self_trade_drops_only_own_orders(opp[b], taker, b);
                        if exists|i: int| 0 <= i < l.2.len() && l.2[i].maker_id == o.id {
                            let i = choose|i: int| 0 <= i < l.2.len() && l.2[i].maker_id == o.id;
                            assert(r.2[i] == l.2[i]);
                        } else {
                            let k = choose|k: int| 0 <= k < l.0.len() && l.0[k].id == o.id && l.0[k].user_id == o.user_id;
                            assert(n.contains_key(b) && n[b] == l.0);
                            lemma_book_keeps_others(n, l.1, (fuel - 1) as nat, b, k);
                            if traded_as_maker(r2.2, o.id) {
                                let i = choose|i: int| 0 <= i < r2.2.len() && #[trigger] r2.2[i].maker_id == o.id;
                                assert(r.2[l.2.len() + i] == r2.2[i]);
                            }
                        }
                    } else {
                        assert(n.contains_key(p) && n[p] == opp[p]);
                        lemma_book_keeps_others(n, l.1, (fuel - 1) as nat, p, j);
                        if traded_as_maker(r2.2, o.id) {
                            let i = choose|i: int| 0 <= i < r2.2.len() && #[trigger] r2.2[i].maker_id == o.id;
                            assert(r.2[l.2.len() + i] == r2.2[i]);
                        }
                    }
                } else {
                    assert(r.0[p][j].id == o.id);
                }
            },
            None => {
                assert(r.0[p][j].id == o.id);
            },
        }
    }
}

/// Self-trade prevention over the whole book: after a taker is matched, every
/// resting order of another user has either traded (it is the maker of a
/// trade) or is still resting; only the taker's own orders can leave the book
/// without trading.
pub proof fn law_only_own_orders_leave_untraded(opp: Map<u64, Seq<Order>>, taker: Order, p: u64, j: int)
    requires
        opp.contains_key(p),
        0 <= j < opp[p].len(),
        opp[p][j].user_id != taker.user_id,
    ensures
        traded_as_maker(match_taker(opp, taker).2, opp[p][j].id) || rests_in(match_taker(opp, taker).0, opp[p][j].id),
{
    lemma_book_keeps_others(opp, taker, full_fuel(opp), p, j);
}

/// Adding an order keeps time priority: the order joins the back of its price
/// level, behind every order already there, which keep their order; no other
/// level changes.
pub proof fn law_added_order_goes_last(lv: Map<u64, Seq<Order>>, o: Order)
    ensures
        level_push(lv, o).contains_key(o.price),
        level_push(lv, o)[o.price].len() == level_or_empty(lv, o.price).len() + 1,
        level_push(lv, o)[o.price].last() == o,
        forall|i: int|
            0 <= i < level_or_empty(lv, o.price).len() ==> #[trigger] level_push(lv, o)[o.price][i] == level_or_empty(
                lv,
                o.price,
            )[i],
        forall|q: u64| q != o.price ==> #[trigger] level_or_empty(level_push(lv, o), q) == level_or_empty(lv, q),
{
}

/// Index facts about the first order with an id.
proof fn lemma_first_index(s: Seq<Order>, id: u64)
    ensures
        0 <= first_index_of(s, id) <= s.len(),
        first_index_of(s, id) < s.len() ==> s[first_index_of(s, id)].id == id,
        forall|k: int| 0 <= k < first_index_of(s, id) ==> #[trigger] s[k].id != id,
    decreases s.len(),
{
    if s.len() > 0 && s[0].id != id {
        let rest = s.subrange(1, s.len() as int);
        lemma_first_index(rest, id);
        assert forall|k: int| 0 <= k < first_index_of(s, id) implies #[trigger] s[k].id != id by {
            if k > 0 {
                assert(s[k] == rest[k - 1]);
            }
        }
    }
}

/// Cancelling an order by id takes out exactly one order with that id (the
/// first one of its indexed level) and nothing else: the level afterwards is
/// the level before without that one order, every other order staying in
/// arrival order; a level without such an order is left as it was; every other
/// level of the book is unchanged.
pub proof fn law_cancel_removes_exactly_that_order(before: Orderbook, after: Orderbook, id: u64)
    requires
        cancel_outcome(before, after, id),
        before.lookup().contains_key(id),
    ensures
        ({
            let meta = before.lookup()[id];
            let s = level_or_empty(before.side_levels(meta.side), meta.price);
            let t = level_or_empty(after.side_levels(meta.side), meta.price);
            &&& (exists|j: int| 0 <= j < s.len() && s[j].id == id) ==> exists|j: int|
                0 <= j < s.len() && s[j].id == id && t == s.remove(j) && forall|k: int|
                    0 <= k < j ==> #[trigger] s[k].id != id
            &&& (forall|j: int| 0 <= j < s.len() ==> #[trigger] s[j].id != id) ==> t == s
            &&& forall|q: u64|
                q != meta.price ==> #[trigger] level_or_empty(after.side_levels(meta.side), q) == level_or_empty(
                    before.side_levels(meta.side),
                    q,
                )
            &&& after.side_levels(other_side(meta.side)) == before.side_levels(other_side(meta.side))
            &&& !after.lookup().contains_key(id)
        }),
{
    let meta = before.lookup()[id];
    assert(before.lookup().get(id) == Some(meta));
    let lv = before.side_levels(meta.side);
    let s = level_or_empty(lv, meta.price);
    lemma_first_index(s, id);
    let i = first_index_of(s, id);
    if exists|j: int| 0 <= j < s.len() && s[j].id == id {
        let j = choose|j: int| 0 <= j < s.len() && s[j].id == id;
        assert(i < s.len()) by {
            if i >= s.len() {
                assert(s[j].id != id);
            }
        }
        assert(lv.contains_key(meta.price));
    }
}

/// The number of creates among the first `n` actions.
pub open spec fn creates_before(actions: Seq<Action>, n: int) -> nat
    decreases n,
{
    if n <= 0 {
        0
    } else {
        creates_before(actions, n - 1) + if actions[n - 1] == Action::Create {
            1nat
        } else {
            0nat
        }
    }
}

/// Order ids count creates: when an engine's next id starts at `first` (1 for
/// [`MatchingEngine::new`]) and each request moves it as
/// [`MatchingEngine::create_engine_order_id_if_it_is_create_else_leave`] does
/// (a create takes the id and moves it on by one, a cancel or cancel-all leaves
/// it), the create at position `i` gets id `first` plus the number of creates
/// before it: the k-th create gets id `first + k - 1`.
pub proof fn law_create_ids_count_creates(actions: Seq<Action>, ids: Seq<u64>, first: u64)
    requires
        ids.len() == actions.len() + 1,
        ids[0] == first,
        forall|i: int|
            0 <= i < actions.len() ==> #[trigger] ids[i + 1] == if actions[i] == Action::Create {
                ids[i] + 1
            } else {
                ids[i] as int
            },
    ensures
        forall|i: int| 0 <= i <= actions.len() ==> #[trigger] ids[i] == first + creates_before(actions, i),
{
    assert forall|i: int| 0 <= i <= actions.len() implies #[trigger] ids[i] == first + creates_before(actions, i) by {
        lemma_ids_prefix(actions, ids, first, i);
    }
}

proof fn lemma_ids_prefix(actions: Seq<Action>, ids: Seq<u64>, first: u64, i: int)
    requires
        ids.len() == actions.len() + 1,
        ids[0] == first,
        forall|j: int|
            0 <= j < actions.len() ==> #[trigger] ids[j + 1] == if actions[j] == Action::Create {
                ids[j] + 1
            } else {
                ids[j] as int
            },
        0 <= i <= actions.len(),
    ensures
        ids[i] == first + creates_before(actions, i),
    decreases i,
{
    if i > 0 {
        lemma_ids_prefix(actions, ids, first, i - 1);
        assert(ids[(i - 1) + 1] == if actions[i - 1] == Action::Create {
            ids[i - 1] + 1
        } else {
            ids[i - 1] as int
        });
    }
}

} // verus!
