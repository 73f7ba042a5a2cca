//! Aggregate views of a book: the quantity resting at each price level, and
//! how many levels and orders each side holds.

use vstd::prelude::*;
use std::collections::{BTreeMap, VecDeque};
use crate::trade::model::Order;
use crate::trade::orderbook::levels;
use vstd::std_specs::iter::IteratorSpec;
use vstd::std_specs::cmp::OrdSpec;

verus! {

broadcast use vstd::std_specs::btree::group_btree_axioms;

/// Keys that a map hands out in increasing order are strictly increasing numbers.
proof fn lemma_increasing_keys(s: Seq<&u64>)
    requires
        vstd::std_specs::btree::increasing_seq(s),
    ensures
        forall|i: int, j: int| 0 <= i < j < s.len() ==> *s[i] < *s[j],
{
    broadcast use vstd::laws_cmp::group_laws_cmp;
    assert(vstd::laws_cmp::obeys_cmp::<&u64>());
    assert forall|i: int, j: int| 0 <= i < j < s.len() implies *s[i] < *s[j] by {
        assert(OrdSpec::cmp_spec(&s[i], &s[j]) is Less);
    }
}

/// The keys of a map in increasing order.
pub(crate) fn sorted_keys<V>(m: &BTreeMap<u64, V>) -> (r: Vec<u64>)
    ensures
        r@.to_set() == m@.dom(),
        r@.len() == m@.dom().len(),
        forall|i: int, j: int| 0 <= i < j < r@.len() ==> r@[i] < r@[j],
{
    let mut out: Vec<u64> = Vec::new();
    let ghost s = vstd::std_specs::btree::spec_keys_iter(m).remaining();
    proof {
        assert forall|i: int| 0 <= i < s.len() implies m@.contains_key(*s[i]) by {
            assert(s.unref()[i] == *s[i]);
            assert(s.unref().contains(*s[i]));
        }
        lemma_increasing_keys(s);
    }
    for k in it: m.keys()
        invariant
            it.seq() == s,
            out@.len() == it.index(),
            s.len() == m@.dom().len(),
            forall|i: int| 0 <= i < it.index() ==> out@[i] == *s[i],
            forall|i: int| 0 <= i < s.len() ==> m@.contains_key(*s[i]),
            forall|i: int, j: int| 0 <= i < j < s.len() ==> *s[i] < *s[j],
    {
        out.push(*k);
    }
    assert(out@ =~= s.unref());
    out
}

/// The quantity resting in a level.
pub open spec fn level_quantity(s: Seq<Order>) -> int
    decreases s.len(),
{
    if s.len() == 0 {
        0
    } else {
        level_quantity(s.drop_last()) + s.last().quantity
    }
}

/// One price level of a side: its price, the quantity resting there and the
/// number of orders.
#[derive(Debug, Clone, Copy, PartialEq, Eq, Structural)]
pub struct DepthRow {
    pub price: u64,
    pub quantity: u128,
    pub orders: usize,
}

/// Whether `rows` are the levels of `lv`, one row each, from the highest price
/// down.
pub open spec fn rows_of(lv: Map<u64, Seq<Order>>, rows: Seq<DepthRow>) -> bool {
    &&& rows.len() == lv.dom().len()
    &&& forall|i: int, j: int| 0 <= i < j < rows.len() ==> #[trigger] rows[i].price > #[trigger] rows[j].price
    &&& forall|i: int|
        0 <= i < rows.len() ==> lv.contains_key(#[trigger] rows[i].price) && rows[i].quantity == level_quantity(
            lv[rows[i].price],
        ) && rows[i].orders == lv[rows[i].price].len()
    &&& forall|p: u64| lv.contains_key(p) ==> exists|i: int| 0 <= i < rows.len() && #[trigger] rows[i].price == p
}

/// The quantity resting in a level, and its number of orders.
fn level_totals(level: &VecDeque<Order>) -> (r: (u128, usize))
    ensures
        r.0 == level_quantity(level@),
        r.1 == level@.len(),
{
    let mut total: u128 = 0;
    let mut j: usize = 0;
    while j < level.len()
        invariant
            j <= level@.len(),
            total == level_quantity(level@.subrange(0, j as int)),
            total <= j * 0xffff_ffff_ffff_ffffu64,
        decreases level@.len() - j,
    {
        let q = level[j].quantity;
        proof {
            let pre = level@.subrange(0, j as int);
            let post = level@.subrange(0, j + 1);
            assert(post.drop_last() == pre);
            assert(post.last() == level@[j as int]);
            assert(j * 0xffff_ffff_ffff_ffffu64 + 0xffff_ffff_ffff_ffffu64 == (j + 1) * 0xffff_ffff_ffff_ffffu64)
                by (nonlinear_arith);
            assert((j + 1) * 0xffff_ffff_ffff_ffffu64 <= 0x1_0000_0000_0000_0000 * 0xffff_ffff_ffff_ffffu64)
                by (nonlinear_arith)
                requires
                    j + 1 <= 0x1_0000_0000_0000_0000,
            ;
        }
        total = total + q as u128;
        j = j + 1;
    }
    assert(level@.subrange(0, j as int) == level@);
    (total, j)
}

/// The levels of a side, one row each, from the highest price down.
pub fn depth_rows(side: &BTreeMap<u64, VecDeque<Order>>) -> (r: Vec<DepthRow>)
    ensures
        rows_of(levels(side@), r@),
{
    broadcast use vstd::laws_cmp::group_laws_cmp;

    let keys = sorted_keys(side);
    let ghost lv = levels(side@);
    let mut rows: Vec<DepthRow> = Vec::new();
    let mut i: usize = keys.len();
    while i > 0
        invariant
            i <= keys@.len(),
            keys@.len() == side@.dom().len(),
            keys@.to_set() == side@.dom(),
            forall|a: int, b: int| 0 <= a < b < keys@.len() ==> keys@[a] < keys@[b],
            lv == levels(side@),
            rows@.len() == keys@.len() - i,
            forall|k: int| 0 <= k < rows@.len() ==> (#[trigger] rows@[k]).price == keys@[keys@.len() - 1 - k],
            forall|k: int|
                0 <= k < rows@.len() ==> (#[trigger] rows@[k]).quantity == level_quantity(lv[rows@[k].price])
                    && rows@[k].orders == lv[rows@[k].price].len(),
        decreases i,
    {
        i = i - 1;
        let p = keys[i];
        assert(keys@.to_set().contains(p)) by {
            assert(keys@.contains(p));
        }
        match side.get(&p) {
            Some(level) => {
                let (quantity, orders) = level_totals(level);
                rows.push(DepthRow { price: p, quantity, orders });
            },
            None => {
                proof {
                    assert(false);
                }
            },
        }
    }
    proof {
        let n = keys@.len();
        assert(lv.dom() =~= side@.dom());
        assert forall|a: int, b: int| 0 <= a < b < rows@.len() implies #[trigger] rows@[a].price
            > #[trigger] rows@[b].price by {
            assert(rows@[a].price == keys@[n - 1 - a]);
            assert(rows@[b].price == keys@[n - 1 - b]);
        }
        assert forall|k: int| 0 <= k < rows@.len() implies lv.contains_key(#[trigger] rows@[k].price) by {
            assert(keys@.contains(keys@[n - 1 - k]));
            assert(keys@.to_set().contains(keys@[n - 1 - k]));
        }
        assert forall|p: u64| lv.contains_key(p) implies exists|k: int|
            0 <= k < rows@.len() && #[trigger] rows@[k].price == p by {
            assert(keys@.to_set().contains(p));
            assert(keys@.contains(p));
            let a = choose|a: int| 0 <= a < keys@.len() && keys@[a] == p;
            assert(rows@[n - 1 - a].price == p);
        }
    }
    rows
}

/// The number of orders resting on a side.
pub open spec fn orders_total(lv: Map<u64, Seq<Order>>) -> nat
    decreases lv.dom().len(),
    when lv.dom().finite()
{
    if lv.dom().len() == 0 {
        0
    } else {
        let p = lv.dom().choose();
        lv[p].len() + orders_total(lv.remove(p))
    }
}

/// The orders of a side are those of any one level plus those of the others.
pub proof fn lemma_orders_total_remove(lv: Map<u64, Seq<Order>>, p: u64)
    requires
        lv.dom().finite(),
        lv.contains_key(p),
    ensures
        orders_total(lv) == lv[p].len() + orders_total(lv.remove(p)),
    decreases lv.dom().len(),
{
    let c = lv.dom().choose();
    if c != p {
        let a = lv.remove(c);
        let b = lv.remove(p);
        lemma_orders_total_remove(a, p);
        lemma_orders_total_remove(b, c);
        assert(a.remove(p) =~= b.remove(c));
    }
}

/// The number of orders counted by depth rows.
pub open spec fn rows_orders(rows: Seq<DepthRow>) -> int
    decreases rows.len(),
{
    if rows.len() == 0 {
        0
    } else {
        rows[0].orders + rows_orders(rows.drop_first())
    }
}

proof fn lemma_rows_orders(lv: Map<u64, Seq<Order>>, rows: Seq<DepthRow>)
    requires
        lv.dom().finite(),
        rows_of(lv, rows),
    ensures
        rows_orders(rows) == orders_total(lv),
    decreases rows.len(),
{
    if rows.len() == 0 {
        assert(lv.dom() =~= Set::<u64>::empty()) by {
            if exists|q: u64| lv.contains_key(q) {
                let q = choose|q: u64| lv.contains_key(q);
                let i = choose|i: int| 0 <= i < rows.len() && #[trigger] rows[i].price == q;
            }
        }
    } else {
        let p = rows[0].price;
        let lv2 = lv.remove(p);
        let rest = rows.drop_first();
        assert forall|i: int| 0 <= i < rest.len() implies lv2.contains_key(#[trigger] rest[i].price)
            && rest[i].quantity == level_quantity(lv2[rest[i].price]) && rest[i].orders == lv2[rest[i].price].len() by {
            assert(rest[i] == rows[i + 1]);
            assert(rows[0].price > rows[i + 1].price);
        }
        assert forall|i: int, j: int| 0 <= i < j < rest.len() implies #[trigger] rest[i].price > #[trigger] rest[j].price by {
            assert(rest[i] == rows[i + 1] && rest[j] == rows[j + 1]);
        }
        assert forall|q: u64| lv2.contains_key(q) implies exists|i: int| 0 <= i < rest.len() && #[trigger] rest[i].price
            == q by {
            let i = choose|i: int| 0 <= i < rows.len() && #[trigger] rows[i].price == q;
            assert(i != 0);
            assert(rest[i - 1] == rows[i]);
        }
        assert(lv2.dom().len() == lv.dom().len() - 1);
        lemma_rows_orders(lv2, rest);
        lemma_orders_total_remove(lv, p);
    }
}

/// How many levels and orders each side of a book holds.
#[derive(Debug, Clone, Copy, PartialEq, Eq, Structural)]
pub struct BookStats {
    pub bid_levels: usize,
    pub bid_orders: u128,
    pub ask_levels: usize,
    pub ask_orders: u128,
}

/// The number of orders on a side, from its depth rows.
fn side_orders(side: &BTreeMap<u64, VecDeque<Order>>) -> (r: u128)
    ensures
        r == orders_total(levels(side@)),
{
    let rows = depth_rows(side);
    let ghost lv = levels(side@);
    let mut total: u128 = 0;
    let mut k: usize = rows.len();
    while k > 0
        invariant
            k <= rows@.len(),
            total == rows_orders(rows@.subrange(k as int, rows@.len() as int)),
            total <= (rows@.len() - k) * 0xffff_ffff_ffff_ffffu64,
        decreases k,
    {
        k = k - 1;
        let n = rows[k].orders;
        proof {
            let post = rows@.subrange(k as int, rows@.len() as int);
            assert(post.drop_first() == rows@.subrange(k + 1, rows@.len() as int));
            assert(post[0] == rows@[k as int]);
            assert(n <= 0xffff_ffff_ffff_ffffu64);
            assert((rows@.len() - k - 1) * 0xffff_ffff_ffff_ffffu64 + 0xffff_ffff_ffff_ffffu64 == (rows@.len() - k)
                * 0xffff_ffff_ffff_ffffu64) by (nonlinear_arith);
            assert((rows@.len() - k) * 0xffff_ffff_ffff_ffffu64 <= 0x1_0000_0000_0000_0000 * 0xffff_ffff_ffff_ffffu64)
                by (nonlinear_arith)
                requires
                    rows@.len() - k <= 0x1_0000_0000_0000_0000,
            ;
        }
        total = total + n as u128;
    }
    proof {
        assert(rows@.subrange(0, rows@.len() as int) == rows@);
        assert(lv.dom() =~= side@.dom());
        lemma_rows_orders(lv, rows@);
    }
    total
}

/// How many levels and orders each side holds.
pub fn book_stats(bids: &BTreeMap<u64, VecDeque<Order>>, asks: &BTreeMap<u64, VecDeque<Order>>) -> (r: BookStats)
    ensures
        r.bid_levels == bids@.dom().len(),
        r.ask_levels == asks@.dom().len(),
        r.bid_orders == orders_total(levels(bids@)),
        r.ask_orders == orders_total(levels(asks@)),
{
    BookStats {
        bid_levels: bids.len(),
        bid_orders: side_orders(bids),
        ask_levels: asks.len(),
        ask_orders: side_orders(asks),
    }
}

} // verus!
