//! The order book of one market: price levels on each side, each a FIFO queue of
//! resting orders, and an index from order id to where the order rests.

use vstd::prelude::*;
use std::collections::{BTreeMap, HashMap, VecDeque};
use crate::trade::model::{Order, OrderMetadata, Side};
use crate::trade::depth::{book_stats, orders_total, BookStats};

verus! {

broadcast use vstd::std_specs::hash::group_hash_axioms;

/// The price levels of one side as sequences: price -> orders in arrival order.
pub open spec fn levels(m: Map<u64, VecDeque<Order>>) -> Map<u64, Seq<Order>> {
    m.map_values(|q: VecDeque<Order>| q@)
}

/// The level at `p`, or the empty sequence where there is none.
pub open spec fn level_or_empty(lv: Map<u64, Seq<Order>>, p: u64) -> Seq<Order> {
    if lv.contains_key(p) {
        lv[p]
    } else {
        Seq::empty()
    }
}

/// Every level of one side is non-empty and holds only orders of that side at
/// that level's price; there are finitely many levels.
pub open spec fn side_wf(lv: Map<u64, Seq<Order>>, side: Side) -> bool {
    &&& lv.dom().finite()
    &&& forall|p: u64| #[trigger] lv.contains_key(p) ==> lv[p].len() > 0
    &&& forall|p: u64, i: int|
        #![trigger lv[p][i]]
        lv.contains_key(p) && 0 <= i < lv[p].len() ==> lv[p][i].price == p && lv[p][i].side == side
}

/// `order` appended to the back of its price level.
pub open spec fn level_push(lv: Map<u64, Seq<Order>>, order: Order) -> Map<u64, Seq<Order>> {
    lv.insert(order.price, level_or_empty(lv, order.price).push(order))
}

/// `p` is the best price of a side: the highest bid, or the lowest ask.
pub open spec fn is_best(lv: Map<u64, Seq<Order>>, side: Side, p: u64) -> bool {
    &&& lv.contains_key(p)
    &&& forall|q: u64|
        #[trigger] lv.contains_key(q) ==> match side {
            Side::Bid => q <= p,
            Side::Ask => p <= q,
        }
}

/// The best price of a side, if it has a level.
pub open spec fn best_price(lv: Map<u64, Seq<Order>>, side: Side) -> Option<u64> {
    if exists|p: u64| is_best(lv, side, p) {
        Some(choose|p: u64| is_best(lv, side, p))
    } else {
        None
    }
}

/// A best price is unique.
pub proof fn lemma_best_unique(lv: Map<u64, Seq<Order>>, side: Side, p: u64)
    requires
        is_best(lv, side, p),
    ensures
        best_price(lv, side) == Some(p),
{
    let c = choose|q: u64| is_best(lv, side, q);
    assert(is_best(lv, side, c));
    assert(lv.contains_key(c) && lv.contains_key(p));
}

/// Index of the first order with id `id` in a level; the level's length when there is none.
pub open spec fn first_index_of(s: Seq<Order>, id: u64) -> int
    decreases s.len(),
{
    if s.len() == 0 {
        0
    } else if s[0].id == id {
        0
    } else {
        1 + first_index_of(s.subrange(1, s.len() as int), id)
    }
}

/// A level without the first order with id `id` (unchanged when there is none).
pub open spec fn level_without(s: Seq<Order>, id: u64) -> Seq<Order> {
    let i = first_index_of(s, id);
    if i < s.len() {
        s.remove(i)
    } else {
        s
    }
}

/// The levels of a side after taking out the first order with id `id` at price `p`;
/// the level goes when it is left empty.
pub open spec fn levels_without(lv: Map<u64, Seq<Order>>, p: u64, id: u64) -> Map<u64, Seq<Order>> {
    if lv.contains_key(p) {
        let s = level_without(lv[p], id);
        if s.len() == 0 {
            lv.remove(p)
        } else {
            lv.insert(p, s)
        }
    } else {
        lv
    }
}

/// Trusted: calls `BTreeMap::first_key_value`, which std documents as the entry
/// with the minimum key; `None` for an empty map.
#[verifier::external_body]
pub(crate) fn first_key<V>(m: &BTreeMap<u64, V>) -> (r: Option<u64>)
    ensures
        match r {
            Some(k) => m@.contains_key(k) && forall|j: u64| #[trigger] m@.contains_key(j) ==> k <= j,
            None => m@.dom() == Set::<u64>::empty(),
        },
{
    match m.first_key_value() {
        Some((k, _)) => Some(*k),
        None => None,
    }
}

/// Trusted: calls `BTreeMap::last_key_value`, which std documents as the entry
/// with the maximum key; `None` for an empty map.
#[verifier::external_body]
pub(crate) fn last_key<V>(m: &BTreeMap<u64, V>) -> (r: Option<u64>)
    ensures
        match r {
            Some(k) => m@.contains_key(k) && forall|j: u64| #[trigger] m@.contains_key(j) ==> j <= k,
            None => m@.dom() == Set::<u64>::empty(),
        },
{
    match m.last_key_value() {
        Some((k, _)) => Some(*k),
        None => None,
    }
}

/// Trusted: calls `BTreeMap::get_mut`: a mutable reference to the value at `k`
/// when the map has that key; what is written through it ends up in the map.
#[verifier::external_body]
fn map_get_mut<'a, V>(m: &'a mut BTreeMap<u64, V>, k: u64) -> (r: Option<&'a mut V>)
    ensures
        match r {
            Some(v) => old(m)@.contains_key(k) && *v == old(m)@[k] && final(m)@ == old(m)@.insert(
                k,
                *final(v),
            ),
            None => !old(m)@.contains_key(k) && final(m)@ == old(m)@,
        },
{
    m.get_mut(&k)
}

/// The order book of one market.
pub struct Orderbook {
    /// Bids by price; the best bid is the highest price.
    pub bids: BTreeMap<u64, VecDeque<Order>>,
    /// Asks by price; the best ask is the lowest price.
    pub asks: BTreeMap<u64, VecDeque<Order>>,
    /// Order id -> the price and side it was added at.
    pub orders_lookup: HashMap<u64, OrderMetadata>,
}

impl Orderbook {
    /// Bid levels as sequences.
    pub open spec fn bid_levels(&self) -> Map<u64, Seq<Order>> {
        levels(self.bids@)
    }

    /// Ask levels as sequences.
    pub open spec fn ask_levels(&self) -> Map<u64, Seq<Order>> {
        levels(self.asks@)
    }

    /// The levels of one side.
    pub open spec fn side_levels(&self, side: Side) -> Map<u64, Seq<Order>> {
        match side {
            Side::Bid => self.bid_levels(),
            Side::Ask => self.ask_levels(),
        }
    }

    /// The order index as a map.
    pub open spec fn lookup(&self) -> Map<u64, OrderMetadata> {
        self.orders_lookup@
    }

    /// Well-formedness: both sides hold non-empty levels of their own side's
    /// orders at the level's price.
    pub open spec fn wf(&self) -> bool {
        &&& side_wf(self.bid_levels(), Side::Bid)
        &&& side_wf(self.ask_levels(), Side::Ask)
    }

    /// An empty book.
    pub fn new() -> (r: Self)
        ensures
            r.bid_levels() == Map::<u64, Seq<Order>>::empty(),
            r.ask_levels() == Map::<u64, Seq<Order>>::empty(),
            r.lookup() == Map::<u64, OrderMetadata>::empty(),
            r.wf(),
    {
        let r = Self { bids: BTreeMap::new(), asks: BTreeMap::new(), orders_lookup: HashMap::new() };
        assert(r.bid_levels() =~= Map::<u64, Seq<Order>>::empty());
        assert(r.ask_levels() =~= Map::<u64, Seq<Order>>::empty());
        r
    }

    /// Appends `order` to the back of the level at its price, creating the level.
    fn push_to_level(m: &mut BTreeMap<u64, VecDeque<Order>>, order: Order)
        ensures
            levels(final(m)@) == level_push(levels(old(m)@), order),
    {
        let ghost lv = levels(old(m)@);
        let mut q = match m.remove(&order.price) {
            Some(q) => q,
            None => VecDeque::new(),
        };
        assert(q@ == level_or_empty(lv, order.price));
        q.push_back(order);
        m.insert(order.price, q);
        assert(levels(m@) =~= level_push(lv, order));
    }

    /// Adds an order at the back of its price level on its side (time priority
    /// within the level) and records where it rests in the index.
    pub fn add_order(&mut self, order: Order)
        ensures
            final(self).side_levels(order.side) == level_push(old(self).side_levels(order.side), order),
            order.side == Side::Bid ==> final(self).ask_levels() == old(self).ask_levels(),
            order.side == Side::Ask ==> final(self).bid_levels() == old(self).bid_levels(),
            final(self).lookup() == old(self).lookup().insert(
                order.id,
                OrderMetadata { price: order.price, side: order.side },
            ),
            old(self).wf() ==> final(self).wf(),
    {
        match order.side {
            Side::Ask => Self::push_to_level(&mut self.asks, order),
            Side::Bid => Self::push_to_level(&mut self.bids, order),
        }
        self.orders_lookup.insert(order.id, OrderMetadata { price: order.price, side: order.side });
        proof {
            let lv = old(self).side_levels(order.side);
            let nv = self.side_levels(order.side);
            if side_wf(lv, order.side) {
                assert(nv.dom() =~= lv.dom().insert(order.price));
                assert forall|p: u64, i: int|
                    #![trigger nv[p][i]]
                    nv.contains_key(p) && 0 <= i < nv[p].len() implies nv[p][i].price == p
                        && nv[p][i].side == order.side by {
                    if p != order.price {
                        assert(nv[p] == lv[p]);
                    } else if i < nv[p].len() - 1 {
                        assert(nv[p][i] == level_or_empty(lv, p)[i]);
                    }
                }
            }
        }
    }

    /// The highest bid price.
    pub fn best_bid(&self) -> (r: Option<u64>)
        ensures
            r == best_price(self.bid_levels(), Side::Bid),
    {
        let r = last_key(&self.bids);
        proof {
            let lv = self.bid_levels();
            assert(lv.dom() =~= self.bids@.dom());
            match r {
                Some(k) => {
                    assert(is_best(lv, Side::Bid, k));
                    lemma_best_unique(lv, Side::Bid, k);
                },
                None => {
                    assert(!exists|p: u64| is_best(lv, Side::Bid, p));
                },
            }
        }
        r
    }

    /// The lowest ask price.
    pub fn best_ask(&self) -> (r: Option<u64>)
        ensures
            r == best_price(self.ask_levels(), Side::Ask),
    {
        let r = first_key(&self.asks);
        proof {
            let lv = self.ask_levels();
            assert(lv.dom() =~= self.asks@.dom());
            match r {
                Some(k) => {
                    assert(is_best(lv, Side::Ask, k));
                    lemma_best_unique(lv, Side::Ask, k);
                },
                None => {
                    assert(!exists|p: u64| is_best(lv, Side::Ask, p));
                },
            }
        }
        r
    }

    /// How many price levels and resting orders each side holds.
    pub fn get_order_book_stats(&self) -> (r: BookStats)
        ensures
            r.bid_levels == self.bid_levels().dom().len(),
            r.ask_levels == self.ask_levels().dom().len(),
            r.bid_orders == orders_total(self.bid_levels()),
            r.ask_orders == orders_total(self.ask_levels()),
    {
        let r = book_stats(&self.bids, &self.asks);
        assert(self.bid_levels().dom() =~= self.bids@.dom());
        assert(self.ask_levels().dom() =~= self.asks@.dom());
        r
    }

    /// The mid price between the best bid and the best ask, in units of 10^-9
    /// (one digit finer than prices, so the half is exact): (bid + ask) / 2.
    /// `None` unless both sides have orders.
    pub fn calculate_mid_fair_price(&self) -> (r: Option<u128>)
        ensures
            match (best_price(self.bid_levels(), Side::Bid), best_price(self.ask_levels(), Side::Ask)) {
                (Some(b), Some(a)) => r == Some(((b + a) * 5) as u128),
                _ => r is None,
            },
    {
        match (self.best_bid(), self.best_ask()) {
            (Some(bid), Some(ask)) => Some((bid as u128 + ask as u128) * 5),
            _ => None,
        }
    }

    /// The queue of orders resting at `price` on `side`, to read or change in place.
    pub fn get_level_mut(&mut self, price: u64, side: Side) -> (r: Option<&mut VecDeque<Order>>)
        ensures
            match r {
                Some(q) => {
                    &&& old(self).side_levels(side).contains_key(price)
                    &&& q@ == old(self).side_levels(side)[price]
                    &&& final(self).side_levels(side) == old(self).side_levels(side).insert(
                        price,
                        final(q)@,
                    )
                },
                None => !old(self).side_levels(side).contains_key(price) && final(self).side_levels(
                    side,
                ) == old(self).side_levels(side),
            },
            final(self).side_levels(other_side(side)) == old(self).side_levels(other_side(side)),
            final(self).lookup() == old(self).lookup(),
    {
        let ghost old_bids = self.bids@;
        let ghost old_asks = self.asks@;
        let r = match side {
            Side::Bid => map_get_mut(&mut self.bids, price),
            Side::Ask => map_get_mut(&mut self.asks, price),
        };
        proof {
            match side {
                Side::Bid => {
                    assert(levels(old_bids).dom() =~= old_bids.dom());
                },
                Side::Ask => {
                    assert(levels(old_asks).dom() =~= old_asks.dom());
                },
            }
        }
        r
    }

    /// Takes the level at `price` on `side` out of the book.
    pub fn remove_level(&mut self, price: u64, side: Side)
        ensures
            final(self).side_levels(side) == old(self).side_levels(side).remove(price),
            final(self).side_levels(other_side(side)) == old(self).side_levels(other_side(side)),
            final(self).lookup() == old(self).lookup(),
            old(self).wf() ==> final(self).wf(),
    {
        match side {
            Side::Bid => {
                self.bids.remove(&price);
            },
            Side::Ask => {
                self.asks.remove(&price);
            },
        };
        assert(self.side_levels(side) =~= old(self).side_levels(side).remove(price));
    }

    /// Removes the order with id `order_id` from the book: the index entry goes,
    /// the first order with that id at the indexed price and side leaves its
    /// level, and the level goes when it is left empty. Nothing changes for an
    /// id the index does not hold.
    pub fn cancel_order(&mut self, order_id: u64)
        ensures
            match old(self).lookup().get(order_id) {
                Some(meta) => {
                    &&& final(self).lookup() == old(self).lookup().remove(order_id)
                    &&& final(self).side_levels(meta.side) == levels_without(
                        old(self).side_levels(meta.side),
                        meta.price,
                        order_id,
                    )
                    &&& final(self).side_levels(other_side(meta.side)) == old(self).side_levels(
                        other_side(meta.side),
                    )
                },
                None => {
                    &&& final(self).lookup() == old(self).lookup()
                    &&& final(self).bid_levels() == old(self).bid_levels()
                    &&& final(self).ask_levels() == old(self).ask_levels()
                },
            },
            old(self).wf() ==> final(self).wf(),
    {
        match self.orders_lookup.remove(&order_id) {
            Some(meta) => {
                match meta.side {
                    Side::Bid => Self::remove_from_level(&mut self.bids, meta.price, order_id, Side::Bid),
                    Side::Ask => Self::remove_from_level(&mut self.asks, meta.price, order_id, Side::Ask),
                }
            },
            None => {},
        }
    }

    /// Takes the first order with id `id` out of the level at `price`, dropping
    /// the level when it is left empty.
    fn remove_from_level(m: &mut BTreeMap<u64, VecDeque<Order>>, price: u64, id: u64, side: Side)
        ensures
            levels(final(m)@) == levels_without(levels(old(m)@), price, id),
            side_wf(levels(old(m)@), side) ==> side_wf(levels(final(m)@), side),
    {
        let ghost lv = levels(old(m)@);
        match m.remove(&price) {
            Some(mut level) => {
                let ghost s = level@;
                let i = Self::find_order(&level, id);
                if i < level.len() {
                    level.remove(i);
                }
                assert(level@ == level_without(s, id));
                if level.len() > 0 {
                    m.insert(price, level);
                    assert(levels(m@) =~= levels_without(lv, price, id));
                } else {
                    assert(levels(m@) =~= levels_without(lv, price, id));
                }
                proof {
                    let nv = levels(m@);
                    if side_wf(lv, side) && level.len() > 0 {
                        assert forall|p: u64, j: int|
                            #![trigger nv[p][j]]
                            nv.contains_key(p) && 0 <= j < nv[p].len() implies nv[p][j].price == p
                                && nv[p][j].side == side by {
                            if p == price {
                                let k = first_index_of(s, id);
                                if k < s.len() {
                                    if j < k {
                                        assert(nv[p][j] == s[j]);
                                    } else {
                                        assert(nv[p][j] == s[j + 1]);
                                    }
                                }
                            }
                        }
                    }
                }
            },
            None => {
                assert(levels(m@) =~= lv);
            },
        }
    }

    /// Position of the first order with id `id` in a level, or its length.
    fn find_order(level: &VecDeque<Order>, id: u64) -> (r: usize)
        ensures
            r == first_index_of(level@, id),
    {
        let mut i: usize = 0;
        assert(level@.subrange(0, level@.len() as int) =~= level@);
        while i < level.len()
            invariant
                i <= level@.len(),
                first_index_of(level@, id) == i + first_index_of(
                    level@.subrange(i as int, level@.len() as int),
                    id,
                ),
            decreases level@.len() - i,
        {
            let ghost rest = level@.subrange(i as int, level@.len() as int);
            assert(rest[0] == level@[i as int]);
            if level[i].id == id {
                return i;
            }
            assert(rest.subrange(1, rest.len() as int) =~= level@.subrange(
                i + 1,
                level@.len() as int,
            ));
            i = i + 1;
        }
        assert(level@.subrange(i as int, level@.len() as int).len() == 0);
        i
    }
}

/// The other side of the book.
pub open spec fn other_side(side: Side) -> Side {
    match side {
        Side::Bid => Side::Ask,
        Side::Ask => Side::Bid,
    }
}

} // verus!
