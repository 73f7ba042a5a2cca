//! The storage workers' rules: when a batch is written, which order updates of
//! a batch are kept, and how sides are labelled in the tables.

use vstd::prelude::*;
use crate::model::{OrderUpdate, Side};
use std::collections::BTreeMap;
use vstd::std_specs::iter::IteratorSpec;
use vstd::std_specs::cmp::OrdSpec;

verus! {

/// Whether a batch is written now: it is not empty, and it is full or has
/// waited long enough since the last write.
pub fn should_flush(buffered: usize, max_batch_size: usize, waited_ms: u64, max_wait_ms: u64) -> (r: bool)
    ensures
        r == (buffered > 0 && (buffered >= max_batch_size || waited_ms >= max_wait_ms)),
{
    buffered != 0 && (buffered >= max_batch_size || waited_ms >= max_wait_ms)
}

/// The label a side is stored under: "BUY" for a buy, "SELL" otherwise.
pub fn side_label(side: Side) -> (r: &'static str)
    ensures
        side == Side::Buy ==> r@ == "BUY"@,
        side == Side::Sell ==> r@ == "SELL"@,
{
    match side {
        Side::Buy => "BUY",
        Side::Sell => "SELL",
    }
}

/// Position of the last update of order `id` in `s`, or -1 when there is none.
pub open spec fn last_index_of(s: Seq<OrderUpdate>, id: u64) -> int
    decreases s.len(),
{
    if s.len() == 0 {
        -1
    } else if s.last().engine_id == id {
        s.len() - 1
    } else {
        last_index_of(s.drop_last(), id)
    }
}

/// Whether some update of `r` is for order `id`.
pub open spec fn has_entry_for(r: Seq<OrderUpdate>, id: u64) -> bool {
    exists|i: int| 0 <= i < r.len() && r[i].engine_id == id
}

/// The updates of `s` with one entry per order: the last update of each order,
/// in increasing order of engine id.
pub open spec fn is_latest_per_order(s: Seq<OrderUpdate>, r: Seq<OrderUpdate>) -> bool {
    &&& forall|i: int, j: int| 0 <= i < j < r.len() ==> #[trigger] r[i].engine_id < #[trigger] r[j].engine_id
    &&& forall|i: int| 0 <= i < r.len() ==> #[trigger] last_index_of(s, r[i].engine_id) >= 0 && r[i] == s[last_index_of(s, r[i].engine_id)]
    &&& forall|k: int| 0 <= k < s.len() ==> #[trigger] has_entry_for(r, s[k].engine_id)
}

proof fn lemma_last_index_bounds(s: Seq<OrderUpdate>, id: u64)
    ensures
        -1 <= last_index_of(s, id) < s.len(),
        last_index_of(s, id) >= 0 ==> s[last_index_of(s, id)].engine_id == id,
        forall|k: int| last_index_of(s, id) < k < s.len() ==> #[trigger] s[k].engine_id != id,
        (exists|k: int| 0 <= k < s.len() && s[k].engine_id == id) ==> last_index_of(s, id) >= 0,
    decreases s.len(),
{
    if s.len() > 0 && s.last().engine_id != id {
        lemma_last_index_bounds(s.drop_last(), id);
        assert forall|k: int| last_index_of(s, id) < k < s.len() implies #[trigger] s[k].engine_id != id by {
            if k < s.len() - 1 {
                assert(s[k] == s.drop_last()[k]);
            }
        }
        if exists|k: int| 0 <= k < s.len() && s[k].engine_id == id {
            let k = choose|k: int| 0 <= k < s.len() && s[k].engine_id == id;
            assert(s.drop_last()[k] == s[k]);
        }
    }
}

/// `u64` keys are ordered as a `BTreeMap`'s specification asks.
pub open spec fn ids_ordered() -> bool {
    &&& vstd::laws_cmp::obeys_cmp::<u64>()
    &&& vstd::std_specs::btree::key_obeys_cmp_spec::<u64>()
}

proof fn lemma_ids_ordered()
    ensures
        ids_ordered(),
{
    broadcast use vstd::laws_cmp::group_laws_cmp, vstd::std_specs::btree::group_btree_axioms;

}

/// Keys that a map hands out in increasing order are strictly increasing numbers.
proof fn lemma_increasing_ids(s: Seq<u64>)
    requires
        vstd::std_specs::btree::increasing_seq(s),
    ensures
        forall|i: int, j: int| 0 <= i < j < s.len() ==> s[i] < s[j],
{
    broadcast use vstd::laws_cmp::group_laws_cmp, vstd::std_specs::btree::group_btree_axioms;

    assert(vstd::laws_cmp::obeys_cmp::<u64>());
    assert forall|i: int, j: int| 0 <= i < j < s.len() implies s[i] < s[j] by {
        assert(OrdSpec::cmp_spec(&s[i], &s[j]) is Less);
    }
}

/// The values of a map from engine id to an order's last update, taken in
/// increasing id order, are the batch's latest updates.
proof fn lemma_latest_from_map(s: Seq<OrderUpdate>, m: Map<u64, OrderUpdate>, ks: Seq<u64>, out: Seq<OrderUpdate>)
    requires
        forall|id: u64| #[trigger] m.contains_key(id) <==> last_index_of(s, id) >= 0,
        forall|id: u64| #[trigger] m.contains_key(id) ==> m[id] == s[last_index_of(s, id)] && m[id].engine_id == id,
        ks.to_set() == m.dom(),
        forall|i: int, j: int| 0 <= i < j < ks.len() ==> ks[i] < ks[j],
        out.len() == ks.len(),
        forall|i: int| 0 <= i < ks.len() ==> out[i] == m[ks[i]],
    ensures
        is_latest_per_order(s, out),
{
    assert forall|i: int| 0 <= i < ks.len() implies m.contains_key(ks[i]) by {
        assert(ks.contains(ks[i]));
        assert(ks.to_set().contains(ks[i]));
    }
    assert forall|i: int, j: int| 0 <= i < j < out.len() implies #[trigger] out[i].engine_id
        < #[trigger] out[j].engine_id by {
        assert(m.contains_key(ks[i]) && m.contains_key(ks[j]));
    }
    assert forall|i: int| 0 <= i < out.len() implies #[trigger] last_index_of(s, out[i].engine_id) >= 0
        && out[i] == s[last_index_of(s, out[i].engine_id)] by {
        assert(m.contains_key(ks[i]));
    }
    assert forall|k: int| 0 <= k < s.len() implies #[trigger] has_entry_for(out, s[k].engine_id) by {
        let id = s[k].engine_id;
        lemma_last_index_bounds(s, id);
        assert(m.contains_key(id));
        assert(ks.to_set().contains(id));
        assert(ks.contains(id));
        let i = choose|i: int| 0 <= i < ks.len() && ks[i] == id;
        assert(m.contains_key(ks[i]));
        assert(out[i].engine_id == s[k].engine_id);
    }
}

/// Keeps only the last update of each order of a batch, ordered by engine id
/// (the batch written to storage holds one row per order).
pub fn latest_updates(updates: &Vec<OrderUpdate>) -> (r: Vec<OrderUpdate>)
    ensures
        is_latest_per_order(updates@, r@),
{
    proof {
        lemma_ids_ordered();
    }
    let mut unique: BTreeMap<u64, OrderUpdate> = BTreeMap::new();
    let mut n: usize = 0;
    while n < updates.len()
        invariant
            n <= updates@.len(),
            ids_ordered(),
            forall|id: u64|
                #[trigger] unique@.contains_key(id) <==> last_index_of(updates@.subrange(0, n as int), id) >= 0,
            forall|id: u64|
                #[trigger] unique@.contains_key(id) ==> unique@[id] == updates@.subrange(0, n as int)[last_index_of(
                    updates@.subrange(0, n as int),
                    id,
                )] && unique@[id].engine_id == id,
        decreases updates@.len() - n,
    {
        let ghost pre = updates@.subrange(0, n as int);
        let ghost post = updates@.subrange(0, n + 1);
        let u = updates[n];
        proof {
            assert(post.drop_last() == pre);
            assert(post.last() == u);
            lemma_last_index_bounds(post, u.engine_id);
            assert forall|id: u64| id != u.engine_id implies #[trigger] last_index_of(post, id) == last_index_of(pre, id) by {
            }
            assert forall|id: u64| id != u.engine_id && last_index_of(pre, id) >= 0 implies post[last_index_of(pre, id)]
                == pre[last_index_of(pre, id)] by {
                lemma_last_index_bounds(pre, id);
            }
        }
        unique.insert(u.engine_id, u);
        n = n + 1;
    }
    let ghost s = updates@;
    let ghost m = unique@;
    assert(updates@.subrange(0, n as int) == s);
    let vals = unique.values();
    let ghost ks = choose|key_seq: Seq<u64>|
        {
            &&& vstd::std_specs::btree::increasing_seq(key_seq)
            &&& key_seq.to_set() == m.dom()
            &&& key_seq.no_duplicates()
            &&& IteratorSpec::remaining(&vals) == key_seq.map(|i: int, k: u64| &m[k])
        };
    proof {
        lemma_increasing_ids(ks);
    }
    let mut out: Vec<OrderUpdate> = Vec::new();
    for v in it: vals
        invariant
            it.seq() == ks.map(|i: int, k: u64| &m[k]),
            out@.len() == it.index(),
            forall|i: int| 0 <= i < it.index() ==> out@[i] == m[ks[i]],
    {
        out.push(*v);
    }
    proof {
        lemma_latest_from_map(s, m, ks, out@);
    }
    out
}

} // verus!
