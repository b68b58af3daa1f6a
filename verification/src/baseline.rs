//! Non-incremental reference strategies.
//!
//! Both baselines are stateless: given the whole collection, they filter it
//! to the group, order it by sort key and pick the median in one shot.
//! `median_sort_fold` keeps its working set sorted while folding the filtered
//! stream into it; `median_inlined` folds first and sorts the collected
//! records afterwards.  Both return the record at position `len / 2` of the
//! sorted, filtered collection, and `lemma_median_equivalence` shows that the
//! incremental engine selects the very same record.

use vstd::prelude::*;
use crate::engine::{customer_order, group_pred, tagged_batch, tagged_order, tick_aggregate, tick_batch};
use crate::engine::{lemma_customer_order_properties, lemma_tagged_order_properties};
use crate::merge::{insert_in_order, leq_from_cmp, sort_stable};
use crate::record::{matches_group, tag_spec, Customer, TaggedCustomer};
use crate::seq_order::{insert_with, merge_with, sort_with};
use crate::seq_order::{
    lemma_merge_of_sorts, lemma_sort_with_ensures, lemma_sort_with_map,
};

verus! {

/// The sorted, filtered collection a baseline works on, and the median both
/// baselines return: the record at position `len / 2`, or nothing when no
/// record of the group is present.
pub open spec fn baseline_sorted(
    customer_data: Seq<Customer>,
    c_last: Seq<char>,
    c_d_id: int,
    c_w_id: int,
) -> Seq<Customer> {
    sort_with(customer_data.filter(group_pred(c_last, c_d_id, c_w_id)), customer_order())
}

/// Keep the records of the group, in arrival order.
fn filter_customers(customer_data: Vec<Customer>, c_last: &str, c_d_id: i32, c_w_id: i32) -> (r:
    Vec<Customer>)
    ensures
        r@ == customer_data@.filter(group_pred(c_last@, c_d_id as int, c_w_id as int)),
{
    let ghost orig = customer_data@;
    let ghost p = group_pred(c_last@, c_d_id as int, c_w_id as int);
    let mut data = customer_data;
    let mut r: Vec<Customer> = Vec::new();
    proof {
        reveal(Seq::filter);
        assert(orig.take(0) =~= Seq::<Customer>::empty());
        assert(r@ =~= orig.take(0).filter(p));
    }
    while data.len() > 0
        invariant
            data@.len() <= orig.len(),
            data@ == orig.skip(orig.len() - data@.len()),
            r@ == orig.take(orig.len() - data@.len()).filter(p),
            p == group_pred(c_last@, c_d_id as int, c_w_id as int),
        decreases data.len(),
    {
        let ghost d0 = data@;
        let ghost k: int = orig.len() - d0.len();
        let c = data.remove(0);
        proof {
            reveal(Seq::filter);
            assert(d0 == orig.skip(k));
            assert(0 <= k < orig.len());
            assert(c == d0[0]);
            assert(c == orig[k]);
            assert(data@ =~= orig.skip(k + 1));
            assert(orig.take(k + 1).drop_last() =~= orig.take(k));
            assert(orig.take(k + 1).last() == orig[k]);
        }
        if matches_group(&c, c_last, c_d_id, c_w_id) {
            r.push(c);
        }
    }
    proof {
        assert(orig.take(orig.len() as int) =~= orig);
    }
    r
}

/// Sort-then-fold baseline: the filtered stream is folded into a working set
/// that is kept sorted throughout, and the median of the result is returned.
pub fn median_sort_fold(
    customer_data: Vec<Customer>,
    c_last: String,
    c_d_id: i32,
    c_w_id: i32,
) -> (r: Option<Customer>)
    ensures
        ({
            let s = baseline_sorted(customer_data@, c_last@, c_d_id as int, c_w_id as int);
            match r {
                None => s.len() == 0,
                Some(c) => s.len() > 0 && c@ == s[s.len() as int / 2]@,
            }
        }),
{
    proof {
        lemma_customer_order_properties();
    }
    let ghost orig = customer_data@;
    let ghost p = group_pred(c_last@, c_d_id as int, c_w_id as int);
    let ghost leq = customer_order();
    let mut data = customer_data;
    let mut sorted: Vec<Customer> = Vec::new();
    proof {
        reveal(Seq::filter);
        assert(orig.take(0) =~= Seq::<Customer>::empty());
        assert(sorted@ =~= sort_with(orig.take(0).filter(p), leq));
    }
    while data.len() > 0
        invariant
            data@.len() <= orig.len(),
            data@ == orig.skip(orig.len() - data@.len()),
            sorted@ == sort_with(orig.take(orig.len() - data@.len()).filter(p), leq),
            p == group_pred(c_last@, c_d_id as int, c_w_id as int),
            leq == customer_order(),
            crate::merge::cmp_is_total_preorder::<Customer>(),
            leq_from_cmp::<Customer>() == leq,
        decreases data.len(),
    {
        let ghost d0 = data@;
        let ghost k: int = orig.len() - d0.len();
        let c = data.remove(0);
        proof {
            reveal(Seq::filter);
            assert(d0 == orig.skip(k));
            assert(0 <= k < orig.len());
            assert(c == d0[0]);
            assert(c == orig[k]);
            assert(data@ =~= orig.skip(k + 1));
            assert(orig.take(k + 1).drop_last() =~= orig.take(k));
            assert(orig.take(k + 1).last() == orig[k]);
        }
        let ghost s0 = sorted@;
        if matches_group(&c, c_last.as_str(), c_d_id, c_w_id) {
            insert_in_order(&mut sorted, c);
            proof {
                let f0 = orig.take(k).filter(p);
                let f1 = orig.take(k + 1).filter(p);
                assert(f1 == f0.push(orig[k]));
                assert(f1.drop_last() =~= f0);
                assert(sort_with(f1, leq) == insert_with(sort_with(f0, leq), orig[k], leq));
                assert(leq_from_cmp::<Customer>() == leq);
            }
        }
    }
    proof {
        assert(orig.take(orig.len() as int) =~= orig);
        lemma_sort_with_ensures(orig.filter(p), leq);
    }
    if sorted.len() == 0 {
        return None;
    }
    let idx = sorted.len() / 2;
    let median = sorted[idx].clone();
    Some(median)
}

/// Fold-then-sort baseline: the filtered records are collected first, the
/// collection is sorted afterwards, and the median of the result is returned.
pub fn median_inlined(
    customer_data: Vec<Customer>,
    c_last: String,
    c_d_id: i32,
    c_w_id: i32,
) -> (r: Option<Customer>)
    ensures
        ({
            let s = baseline_sorted(customer_data@, c_last@, c_d_id as int, c_w_id as int);
            match r {
                None => s.len() == 0,
                Some(c) => s.len() > 0 && c@ == s[s.len() as int / 2]@,
            }
        }),
{
    proof {
        lemma_customer_order_properties();
    }
    let ghost orig = customer_data@;
    let ghost p = group_pred(c_last@, c_d_id as int, c_w_id as int);
    let filtered = filter_customers(customer_data, c_last.as_str(), c_d_id, c_w_id);
    let sorted = sort_stable(filtered);
    proof {
        lemma_sort_with_ensures(orig.filter(p), customer_order());
    }
    if sorted.len() == 0 {
        return None;
    }
    let idx = sorted.len() / 2;
    let median = sorted[idx].clone();
    Some(median)
}

/// Median equivalence: with no deletions, the aggregate the incremental
/// engine holds after consuming the base batch at one tick and the update
/// batch at the next is, record for record, the baselines' sorted filtered
/// view of the concatenation of the two batches.  In particular the engine's
/// second-tick median is the baselines' median of the whole collection.
pub proof fn lemma_median_equivalence(
    base: Seq<Customer>,
    updates: Seq<Customer>,
    c_last: Seq<char>,
    c_d_id: int,
    c_w_id: int,
)
    ensures
        ({
            let no_agg = Seq::<TaggedCustomer>::empty();
            let no_keys = Seq::<i64>::empty();
            let agg1 = tick_aggregate(no_agg, no_keys, base, false, c_last, c_d_id, c_w_id);
            let agg2 = tick_aggregate(agg1, no_keys, updates, false, c_last, c_d_id, c_w_id);
            agg2.map_values(|t: TaggedCustomer| t.customer) == baseline_sorted(
                base + updates,
                c_last,
                c_d_id,
                c_w_id,
            )
        }),
{
    broadcast use vstd::seq_lib::group_filter_ensures;

    lemma_tagged_order_properties();
    lemma_customer_order_properties();
    let lt = tagged_order();
    let lc = customer_order();
    let p = group_pred(c_last, c_d_id, c_w_id);
    let tag_fn = |c: Customer| tag_spec(c);
    let cust_fn = |t: TaggedCustomer| t.customer;
    let tb1 = tagged_batch(base, c_last, c_d_id, c_w_id);
    let tb2 = tagged_batch(updates, c_last, c_d_id, c_w_id);
    let bf1 = tick_batch(base, c_last, c_d_id, c_w_id);
    let bf2 = tick_batch(updates, c_last, c_d_id, c_w_id);
    let no_agg = Seq::<TaggedCustomer>::empty();
    let no_keys = Seq::<i64>::empty();
    let agg1 = tick_aggregate(no_agg, no_keys, base, false, c_last, c_d_id, c_w_id);
    let agg2 = tick_aggregate(agg1, no_keys, updates, false, c_last, c_d_id, c_w_id);

    lemma_sort_with_ensures(tb1, lt);
    lemma_sort_with_ensures(tb2, lt);
    // Merging into the empty first aggregate just takes the sorted batch.
    assert(agg1 == sort_with(tb1, lt)) by {
        if bf1.len() == 0 {
            assert(tb1.len() == 0);
            assert(sort_with(tb1, lt) =~= Seq::<TaggedCustomer>::empty());
        } else {
            assert(merge_with(Seq::<TaggedCustomer>::empty(), bf1, lt) == bf1);
        }
    }
    // The two-tick aggregate is the sort of the concatenated tagged batches.
    assert(agg2 == sort_with(tb1 + tb2, lt)) by {
        lemma_merge_of_sorts(tb1, tb2, lt);
        if bf2.len() == 0 {
            assert(tb2.len() == 0);
            assert(tb1 + tb2 =~= tb1);
        } else {
            if bf1.len() == 0 {
                assert(tb1.len() == 0);
                assert(sort_with(tb1, lt).len() == 0);
                assert(agg1 =~= sort_with(tb1, lt));
            }
            assert(agg2 == merge_with(sort_with(tb1, lt), sort_with(tb2, lt), lt));
        }
    }
    // The tagged batches of the two ticks concatenate to the tagged batch of
    // the whole collection.
    let f_all = (base + updates).filter(p);
    assert(tb1 + tb2 =~= tagged_batch(base + updates, c_last, c_d_id, c_w_id)) by {
        Seq::filter_distributes_over_add(base, updates, p);
        assert(base.filter(p).map_values(tag_fn) + updates.filter(p).map_values(tag_fn)
            =~= (base.filter(p) + updates.filter(p)).map_values(tag_fn));
    }
    // Projecting the tags away turns the sorted tagged batch into the
    // baselines' sorted filtered collection.
    assert forall|x: TaggedCustomer, y: TaggedCustomer| #[trigger]
        lt(x, y) == lc(cust_fn(x), cust_fn(y)) by {}
    lemma_sort_with_map(tagged_batch(base + updates, c_last, c_d_id, c_w_id), cust_fn, lt, lc);
    assert(tagged_batch(base + updates, c_last, c_d_id, c_w_id).map_values(cust_fn) =~= f_all);
}

} // verus!
