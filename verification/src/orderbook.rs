//! The engine's order book front: turning requests into orders and keeping the
//! indexes by client id, by engine id and by user.

use vstd::prelude::*;
use std::collections::{BTreeMap, HashMap, HashSet, VecDeque};
use crate::model::{MarketId, MatchingError, Order, OrderRequest, Side, Trade};
use crate::trade::depth::sorted_keys;

verus! {

broadcast use vstd::std_specs::hash::group_hash_axioms, vstd::std_specs::btree::group_btree_axioms;

/// The order book with its indexes.
pub struct Orderbook {
    /// Bids by price (highest is best).
    pub bids: BTreeMap<u64, VecDeque<OrderRequest>>,
    /// Asks by price (lowest is best).
    pub asks: BTreeMap<u64, VecDeque<OrderRequest>>,
    /// (user id, client order id) -> engine order id.
    pub client_id_map: BTreeMap<(u64, u64), u64>,
    /// user id -> the engine ids of the user's orders.
    pub user_orders: HashMap<u64, HashSet<u64>>,
    last_engine_id: u64,
    /// engine id -> (price, side).
    pub orders_metadata: HashMap<u64, (u64, Side)>,
}

/// The order a request becomes when it carries price, quantity and client id.
pub open spec fn promoted(req: OrderRequest, engine_id: u64) -> Result<Order, MatchingError> {
    match (req.price, req.quantity, req.client_id) {
        (None, _, _) => Err(MatchingError::MissingPrice),
        (Some(_), None, _) => Err(MatchingError::MissingQuantity),
        (Some(_), Some(_), None) => Err(MatchingError::MissingClientId),
        (Some(p), Some(q), Some(c)) => Ok(
            Order {
                engine_id,
                client_id: c,
                user_id: req.user_id,
                price: p,
                quantity: q,
                side: req.side,
                timestamp: req.timestamp,
            },
        ),
    }
}

/// The quantity asked for by the requests of a level (a missing quantity counts 0).
pub open spec fn requested_quantity(s: Seq<OrderRequest>) -> int
    decreases s.len(),
{
    if s.len() == 0 {
        0
    } else {
        requested_quantity(s.drop_last()) + match s.last().quantity {
            Some(q) => q as int,
            None => 0,
        }
    }
}

/// One price level of a depth snapshot.
#[derive(Debug, Clone, Copy, PartialEq, Eq, Structural)]
pub struct DepthLevel {
    pub price: u64,
    pub quantity: u128,
}

/// A depth snapshot of a market: its best bid levels from the highest price
/// down and its best ask levels from the lowest price up.
#[derive(Debug, Clone)]
pub struct DepthResponse {
    pub market: MarketId,
    pub bids: Vec<DepthLevel>,
    pub asks: Vec<DepthLevel>,
}

/// Whether `rows` are the `n` best levels of the side `lv` (all of them when
/// there are fewer), best first: the highest prices when `highest_first`,
/// else the lowest; every level left out is worse than every row.
pub open spec fn best_levels(lv: Map<u64, VecDeque<OrderRequest>>, rows: Seq<DepthLevel>, n: usize, highest_first: bool) -> bool {
    &&& rows.len() == if n < lv.dom().len() { n as nat } else { lv.dom().len() }
    &&& forall|i: int, j: int|
        #![trigger rows[i], rows[j]]
        0 <= i < j < rows.len() ==> if highest_first {
            rows[i].price > rows[j].price
        } else {
            rows[i].price < rows[j].price
        }
    &&& forall|i: int|
        0 <= i < rows.len() ==> lv.contains_key(#[trigger] rows[i].price) && rows[i].quantity == requested_quantity(
            lv[rows[i].price]@,
        )
    &&& forall|p: u64|
        #[trigger] lv.contains_key(p) ==> (exists|i: int| 0 <= i < rows.len() && rows[i].price == p) || (forall|i: int|
            0 <= i < rows.len() ==> if highest_first {
                p < #[trigger] rows[i].price
            } else {
                p > rows[i].price
            })
}

/// The quantity asked for by a level's requests.
fn level_requested(level: &VecDeque<OrderRequest>) -> (r: u128)
    ensures
        r == requested_quantity(level@),
{
    let mut total: u128 = 0;
    let mut j: usize = 0;
    while j < level.len()
        invariant
            j <= level@.len(),
            total == requested_quantity(level@.subrange(0, j as int)),
            total <= j * 0xffff_ffff_ffff_ffffu64,
        decreases level@.len() - j,
    {
        let q: u64 = match level[j].quantity {
            Some(q) => q,
            None => 0,
        };
        proof {
            let pre = level@.subrange(0, j as int);
            let post = level@.subrange(0, j + 1);
            assert(post.drop_last() == pre);
            assert(post.last() == level@[j as int]);
            assert(j * 0xffff_ffff_ffff_ffffu64 + 0xffff_ffff_ffff_ffffu64 == (j + 1) * 0xffff_ffff_ffff_ffffu64)
                by (nonlinear_arith);
            assert((j + 1) * 0xffff_ffff_ffff_ffffu64 <= 0x1_0000_0000_0000_0000 * 0xffff_ffff_ffff_ffffu64)
                by (nonlinear_arith)
                requires
                    j + 1 <= 0x1_0000_0000_0000_0000,
            ;
        }
        total = total + q as u128;
        j = j + 1;
    }
    assert(level@.subrange(0, j as int) == level@);
    total
}

/// The `n` best levels of a side, best first.
fn side_depth(side: &BTreeMap<u64, VecDeque<OrderRequest>>, n: usize, highest_first: bool) -> (r: Vec<DepthLevel>)
    ensures
        best_levels(side@, r@, n, highest_first),
{
    broadcast use vstd::laws_cmp::group_laws_cmp;

    let keys = sorted_keys(side);
    let m = keys.len();
    let count = if n < m { n } else { m };
    let mut rows: Vec<DepthLevel> = Vec::new();
    let mut i: usize = 0;
    while i < count
        invariant
            count <= m,
            m == keys@.len(),
            count == (if n < m { n } else { m }),
            keys@.len() == side@.dom().len(),
            keys@.to_set() == side@.dom(),
            forall|a: int, b: int| 0 <= a < b < keys@.len() ==> keys@[a] < keys@[b],
            i <= count,
            rows@.len() == i,
            forall|k: int|
                0 <= k < i ==> (#[trigger] rows@[k]).price == (if highest_first {
                    keys@[m - 1 - k]
                } else {
                    keys@[k]
                }) && rows@[k].quantity == requested_quantity(side@[rows@[k].price]@),
        decreases count - i,
    {
        let p = if highest_first {
            keys[m - 1 - i]
        } else {
            keys[i]
        };
        assert(keys@.to_set().contains(p)) by {
            assert(keys@.contains(p));
        }
        match side.get(&p) {
            Some(level) => {
                let quantity = level_requested(level);
                rows.push(DepthLevel { price: p, quantity });
            },
            None => {
                proof {
                    assert(false);
                }
            },
        }
        i = i + 1;
    }
    proof {
        assert forall|a: int, b: int| #![trigger rows@[a], rows@[b]] 0 <= a < b < rows@.len() implies (if highest_first {
            rows@[a].price > rows@[b].price
        } else {
            rows@[a].price < rows@[b].price
        }) by {
            if highest_first {
                assert(rows@[a].price == keys@[m - 1 - a] && rows@[b].price == keys@[m - 1 - b]);
            } else {
                assert(rows@[a].price == keys@[a] && rows@[b].price == keys@[b]);
            }
        }
        assert forall|k: int| 0 <= k < rows@.len() implies side@.contains_key(#[trigger] rows@[k].price) by {
            let idx = if highest_first { m - 1 - k } else { k };
            assert(keys@.contains(keys@[idx]));
            assert(keys@.to_set().contains(keys@[idx]));
        }
        assert forall|p: u64| #[trigger] side@.contains_key(p) implies (exists|k: int|
            0 <= k < rows@.len() && rows@[k].price == p) || (forall|k: int|
            0 <= k < rows@.len() ==> if highest_first {
                p < #[trigger] rows@[k].price
            } else {
                p > rows@[k].price
            }) by {
            assert(keys@.to_set().contains(p));
            assert(keys@.contains(p));
            let j = choose|j: int| 0 <= j < keys@.len() && keys@[j] == p;
            if highest_first {
                if j >= m - count {
                    assert(rows@[m - 1 - j].price == p);
                } else {
                    assert forall|k: int| 0 <= k < rows@.len() implies p < #[trigger] rows@[k].price by {
                        assert(rows@[k].price == keys@[m - 1 - k]);
                    }
                }
            } else {
                if j < count {
                    assert(rows@[j].price == p);
                } else {
                    assert forall|k: int| 0 <= k < rows@.len() implies p > #[trigger] rows@[k].price by {
                        assert(rows@[k].price == keys@[k]);
                    }
                }
            }
        }
    }
    rows
}

impl Orderbook {
    /// The last engine id handed out.
    pub closed spec fn last_id(&self) -> u64 {
        self.last_engine_id
    }

    /// The client-id index.
    pub closed spec fn client_ids(&self) -> Map<(u64, u64), u64> {
        self.client_id_map@
    }

    /// The engine-id index.
    pub closed spec fn metadata(&self) -> Map<u64, (u64, Side)> {
        self.orders_metadata@
    }

    /// The user index: user -> set of engine ids.
    pub closed spec fn user_index(&self) -> Map<u64, Set<u64>> {
        self.user_orders@.map_values(|s: HashSet<u64>| s@)
    }

    /// The price levels, untouched by everything here.
    pub closed spec fn levels(&self) -> (Map<u64, VecDeque<OrderRequest>>, Map<u64, VecDeque<OrderRequest>>) {
        (self.bids@, self.asks@)
    }

    /// An empty book whose first order gets engine id 2.
    pub fn new() -> (r: Self)
        ensures
            r.last_id() == 1,
            r.client_ids() == Map::<(u64, u64), u64>::empty(),
            r.metadata() == Map::<u64, (u64, Side)>::empty(),
            r.user_index() == Map::<u64, Set<u64>>::empty(),
            r.levels() == (Map::<u64, VecDeque<OrderRequest>>::empty(), Map::<u64, VecDeque<OrderRequest>>::empty()),
    {
        let r = Self {
            bids: BTreeMap::new(),
            asks: BTreeMap::new(),
            client_id_map: BTreeMap::new(),
            user_orders: HashMap::new(),
            last_engine_id: 1,
            orders_metadata: HashMap::new(),
        };
        assert(r.user_index() =~= Map::<u64, Set<u64>>::empty());
        r
    }

    /// The last engine id handed out.
    pub fn last_engine_id(&self) -> (r: u64)
        ensures
            r == self.last_id(),
    {
        self.last_engine_id
    }

    /// A depth snapshot of up to `levels` levels on each side: bids from the
    /// highest price down, asks from the lowest price up, each with the
    /// quantity its requests ask for. The market is left for the engine to set.
    pub fn get_depth(&self, levels: usize) -> (r: DepthResponse)
        ensures
            r.market == MarketId::Unspecified,
            best_levels(self.levels().0, r.bids@, levels, true),
            best_levels(self.levels().1, r.asks@, levels, false),
    {
        DepthResponse {
            market: MarketId::Unspecified,
            bids: side_depth(&self.bids, levels, true),
            asks: side_depth(&self.asks, levels, false),
        }
    }

    /// Hands out the next engine id.
    fn next_engine_id(&mut self) -> (r: u64)
        requires
            old(self).last_id() < u64::MAX,
        ensures
            r == old(self).last_id() + 1,
            final(self).last_id() == r,
            final(self).client_ids() == old(self).client_ids(),
            final(self).metadata() == old(self).metadata(),
            final(self).user_index() == old(self).user_index(),
            final(self).levels() == old(self).levels(),
    {
        self.last_engine_id += 1;
        self.last_engine_id
    }

    /// Accepts a request, indexes it and matches it. Matching is not done yet:
    /// the accepted order is indexed and no trade comes out. A request without
    /// price, quantity or client id is refused with the first that is missing,
    /// and then nothing changes.
    pub fn match_or_rest(&mut self, req: OrderRequest) -> (r: Result<Vec<Trade>, MatchingError>)
        requires
            old(self).last_id() < u64::MAX,
        ensures
            match promoted(req, (old(self).last_id() + 1) as u64) {
                Err(e) => r == Err::<Vec<Trade>, MatchingError>(e) && final(self).client_ids() == old(self).client_ids()
                    && final(self).metadata() == old(self).metadata()
                    && final(self).user_index() == old(self).user_index()
                    && final(self).levels() == old(self).levels()
                    && final(self).last_id() == old(self).last_id(),
                Ok(o) => r matches Ok(t) && t@.len() == 0 && final(self).last_id() == o.engine_id
                    && indexed(*old(self), *final(self), o),
            },
    {
        let taker_order = self.validate_and_promote(req)?;
        self.add_to_indexes(&taker_order);
        let trades: Vec<Trade> = Vec::new();
        Ok(trades)
    }

    /// The highest bid price.
    fn best_bid(&self) -> (r: Option<u64>)
        ensures
            match r {
                Some(k) => self.bids@.contains_key(k) && forall|j: u64| #[trigger] self.bids@.contains_key(j) ==> j <= k,
                None => self.bids@.dom() == Set::<u64>::empty(),
            },
    {
        crate::trade::orderbook::last_key(&self.bids)
    }

    /// The lowest ask price.
    fn best_ask(&self) -> (r: Option<u64>)
        ensures
            match r {
                Some(k) => self.asks@.contains_key(k) && forall|j: u64| #[trigger] self.asks@.contains_key(j) ==> k <= j,
                None => self.asks@.dom() == Set::<u64>::empty(),
            },
    {
        crate::trade::orderbook::first_key(&self.asks)
    }

    /// Turns a request into an order with the next engine id, when it carries a
    /// price, a quantity and a client id (checked in that order). The id is only
    /// taken when the request is accepted.
    pub fn validate_and_promote(&mut self, req: OrderRequest) -> (r: Result<Order, MatchingError>)
        requires
            old(self).last_id() < u64::MAX,
        ensures
            r == promoted(req, (old(self).last_id() + 1) as u64),
            final(self).last_id() == (if r is Ok {
                old(self).last_id() + 1
            } else {
                old(self).last_id() as int
            }),
            final(self).client_ids() == old(self).client_ids(),
            final(self).metadata() == old(self).metadata(),
            final(self).user_index() == old(self).user_index(),
            final(self).levels() == old(self).levels(),
    {
        let price = match req.price {
            Some(p) => p,
            None => {
                return Err(MatchingError::MissingPrice);
            },
        };
        let quantity = match req.quantity {
            Some(q) => q,
            None => {
                return Err(MatchingError::MissingQuantity);
            },
        };
        let client_id = match req.client_id {
            Some(c) => c,
            None => {
                return Err(MatchingError::MissingClientId);
            },
        };
        Ok(
            Order {
                engine_id: self.next_engine_id(),
                client_id,
                user_id: req.user_id,
                price,
                quantity,
                side: req.side,
                timestamp: req.timestamp,
            },
        )
    }

    /// Records an order in the three indexes: (user, client id) -> engine id,
    /// engine id -> (price, side), and the engine id in the user's set.
    pub fn add_to_indexes(&mut self, order: &Order)
        ensures
            indexed(*old(self), *final(self), *order),
            final(self).last_id() == old(self).last_id(),
    {
        self.client_id_map.insert((order.user_id, order.client_id), order.engine_id);
        self.orders_metadata.insert(order.engine_id, (order.price, order.side));
        let ghost ui = self.user_index();
        let mut set = match self.user_orders.remove(&order.user_id) {
            Some(s) => s,
            None => HashSet::new(),
        };
        set.insert(order.engine_id);
        self.user_orders.insert(order.user_id, set);
        assert(self.user_index() =~= ui.insert(
            order.user_id,
            user_set(ui, order.user_id).insert(order.engine_id),
        ));
    }
}

/// The engine ids of a user, empty for an unknown user.
pub open spec fn user_set(ui: Map<u64, Set<u64>>, user: u64) -> Set<u64> {
    if ui.contains_key(user) {
        ui[user]
    } else {
        Set::empty()
    }
}

/// Recording an order adds to the indexes and loses nothing: the user's set
/// of engine ids keeps every id it had and gains the new one (and nothing
/// else), other users' sets are unchanged, the client id of the order now
/// leads to its engine id and every other client id to what it led to, and
/// the engine id now leads to the order's price and side.
pub proof fn law_indexing_keeps_earlier_orders(before: Orderbook, after: Orderbook, o: Order)
    requires
        indexed(before, after, o),
    ensures
        forall|e: u64|
            #[trigger] user_set(before.user_index(), o.user_id).contains(e) ==> user_set(after.user_index(), o.user_id).contains(e),
        user_set(after.user_index(), o.user_id).contains(o.engine_id),
        forall|e: u64|
            #[trigger] user_set(after.user_index(), o.user_id).contains(e) ==> e == o.engine_id || user_set(
                before.user_index(),
                o.user_id,
            ).contains(e),
        forall|u: u64| u != o.user_id ==> #[trigger] user_set(after.user_index(), u) == user_set(before.user_index(), u),
        after.client_ids().contains_key((o.user_id, o.client_id)) && after.client_ids()[(o.user_id, o.client_id)]
            == o.engine_id,
        forall|k: (u64, u64)|
            k != (o.user_id, o.client_id) ==> #[trigger] after.client_ids().contains_key(k) == before.client_ids().contains_key(k)
                && (before.client_ids().contains_key(k) ==> after.client_ids()[k] == before.client_ids()[k]),
        after.metadata().contains_key(o.engine_id) && after.metadata()[o.engine_id] == (o.price, o.side),
        after.levels() == before.levels(),
{
}

/// `after` is `before` with `o` recorded in all three indexes, levels untouched.
pub open spec fn indexed(before: Orderbook, after: Orderbook, o: Order) -> bool {
    &&& after.client_ids() == before.client_ids().insert((o.user_id, o.client_id), o.engine_id)
    &&& after.metadata() == before.metadata().insert(o.engine_id, (o.price, o.side))
    &&& after.user_index() == before.user_index().insert(
        o.user_id,
        user_set(before.user_index(), o.user_id).insert(o.engine_id),
    )
    &&& after.levels() == before.levels()
}

} // verus!
