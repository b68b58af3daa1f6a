//! The incremental sorted-aggregation engine.
//!
//! The engine maintains, across ticks, the sorted aggregate of all records of
//! one group seen so far.  Each tick it tags and filters the incoming batch,
//! sorts it, optionally removes deleted records from the retained aggregate,
//! merges the two sorted sequences, publishes the median of the merge, and
//! carries the merge over as the aggregate for the next tick.  An empty
//! filtered batch makes the tick a no-op: the aggregate is carried forward
//! unchanged and no median is published.
//!
//! Deletions are deferred by one tick: a deletion batch handed to a tick is
//! staged, and takes effect at the start of the next tick that does work.

use vstd::prelude::*;
use vstd::relations::sorted_by;
use crate::merge::{cmp_is_total_preorder, leq_from_cmp, merge_sorted, sort_stable};
use crate::order::{lemma_lex_leq_connected, lemma_lex_leq_trans, lex_leq};
use crate::record::{
    matches_spec, matches_group, sum_key_spec, tag_customer, tag_spec, Customer, CustomerView,
    TaggedCustomer,
};
use crate::seq_order::{merge_with, sort_with, total_preorder};
use crate::seq_order::{lemma_merge_with_ensures, lemma_sort_with_ensures};
use crate::seq_order::{
    lemma_filter_all, lemma_filter_filter, lemma_filter_map_commute, lemma_filter_subset,
    lemma_sort_with_filter,
};

verus! {

/// The order of tagged records inside the aggregate: by the record's
/// first-name sort key, lexicographically.  The tag plays no part.
pub open spec fn tagged_order() -> spec_fn(TaggedCustomer, TaggedCustomer) -> bool {
    |x: TaggedCustomer, y: TaggedCustomer| lex_leq(x.customer.c_first@, y.customer.c_first@)
}

/// The same order on bare records, used by the baselines.
pub open spec fn customer_order() -> spec_fn(Customer, Customer) -> bool {
    |x: Customer, y: Customer| lex_leq(x.c_first@, y.c_first@)
}

/// The order of tagged records is a total preorder, and it is exactly the
/// relation that the `PartialOrd` implementation of `TaggedCustomer` induces.
pub proof fn lemma_tagged_order_properties()
    ensures
        total_preorder(tagged_order()),
        cmp_is_total_preorder::<TaggedCustomer>(),
        leq_from_cmp::<TaggedCustomer>() == tagged_order(),
{
    let leq = tagged_order();
    let cleq = leq_from_cmp::<TaggedCustomer>();
    assert forall|x: TaggedCustomer, y: TaggedCustomer| #[trigger]
        leq(x, y) || #[trigger] leq(y, x) by {
        lemma_lex_leq_connected(x.customer.c_first@, y.customer.c_first@);
    }
    assert forall|x: TaggedCustomer, y: TaggedCustomer, z: TaggedCustomer|
        #[trigger] leq(x, y) && #[trigger] leq(y, z) implies leq(x, z) by {
        lemma_lex_leq_trans(x.customer.c_first@, y.customer.c_first@, z.customer.c_first@);
    }
    assert forall|x: TaggedCustomer, y: TaggedCustomer| #[trigger] cleq(x, y) == leq(x, y) by {
        lemma_lex_leq_connected(x.customer.c_first@, y.customer.c_first@);
    }
    assert(cleq =~= leq);
}

/// The order of records is a total preorder, and it is exactly the relation
/// that the `PartialOrd` implementation of `Customer` induces.
pub proof fn lemma_customer_order_properties()
    ensures
        total_preorder(customer_order()),
        cmp_is_total_preorder::<Customer>(),
        leq_from_cmp::<Customer>() == customer_order(),
{
    let leq = customer_order();
    let cleq = leq_from_cmp::<Customer>();
    assert forall|x: Customer, y: Customer| #[trigger] leq(x, y) || #[trigger] leq(y, x) by {
        lemma_lex_leq_connected(x.c_first@, y.c_first@);
    }
    assert forall|x: Customer, y: Customer, z: Customer|
        #[trigger] leq(x, y) && #[trigger] leq(y, z) implies leq(x, z) by {
        lemma_lex_leq_trans(x.c_first@, y.c_first@, z.c_first@);
    }
    assert forall|x: Customer, y: Customer| #[trigger] cleq(x, y) == leq(x, y) by {
        lemma_lex_leq_connected(x.c_first@, y.c_first@);
    }
    assert(cleq =~= leq);
}

/// Membership in the group named by the three filter parameters.
pub open spec fn group_pred(c_last: Seq<char>, c_d_id: int, c_w_id: int) -> spec_fn(
    Customer,
) -> bool {
    |c: Customer| matches_spec(c, c_last, c_d_id, c_w_id)
}

/// Tag every record of the batch with its sum key and keep those of the
/// group: the specification of one tick's intake, before sorting.
pub open spec fn tagged_batch(
    batch: Seq<Customer>,
    c_last: Seq<char>,
    c_d_id: int,
    c_w_id: int,
) -> Seq<TaggedCustomer> {
    batch.filter(group_pred(c_last, c_d_id, c_w_id)).map_values(|c: Customer| tag_spec(c))
}

/// Every element of a tagged, filtered batch belongs to the group and carries
/// the sum key of its record.
pub proof fn lemma_tagged_batch_elements(
    batch: Seq<Customer>,
    c_last: Seq<char>,
    c_d_id: int,
    c_w_id: int,
)
    ensures
        forall|i: int|
            0 <= i < tagged_batch(batch, c_last, c_d_id, c_w_id).len() ==> {
                let t = #[trigger] tagged_batch(batch, c_last, c_d_id, c_w_id)[i];
                &&& matches_spec(t.customer, c_last, c_d_id, c_w_id)
                &&& t.sum_key == sum_key_spec(t.customer)
                &&& t == tag_spec(t.customer)
            },
{
    broadcast use vstd::seq_lib::group_filter_ensures;

    let p = group_pred(c_last, c_d_id, c_w_id);
    let f = batch.filter(p);
    let tb = tagged_batch(batch, c_last, c_d_id, c_w_id);
    assert forall|i: int| 0 <= i < tb.len() implies {
        let t = #[trigger] tb[i];
        &&& matches_spec(t.customer, c_last, c_d_id, c_w_id)
        &&& t.sum_key == sum_key_spec(t.customer)
        &&& t == tag_spec(t.customer)
    } by {
        assert(p(f[i]));
        assert(tb[i] == tag_spec(f[i]));
    }
}

/// Tag the records of a batch and keep those of the group.
pub fn tag_and_filter(batch: Vec<Customer>, c_last: &str, c_d_id: i32, c_w_id: i32) -> (r: Vec<
    TaggedCustomer,
>)
    ensures
        r@ == tagged_batch(batch@, c_last@, c_d_id as int, c_w_id as int),
{
    let ghost orig = batch@;
    let ghost p = group_pred(c_last@, c_d_id as int, c_w_id as int);
    let ghost tag_fn = |c: Customer| tag_spec(c);
    let mut batch = batch;
    let mut r: Vec<TaggedCustomer> = Vec::new();
    proof {
        assert(orig.take(0) =~= Seq::<Customer>::empty());
        assert(r@ =~= orig.take(0).filter(p).map_values(tag_fn));
    }
    while batch.len() > 0
        invariant
            batch@.len() <= orig.len(),
            batch@ == orig.skip(orig.len() - batch@.len()),
            r@ == orig.take(orig.len() - batch@.len()).filter(p).map_values(tag_fn),
            p == group_pred(c_last@, c_d_id as int, c_w_id as int),
            tag_fn == (|c: Customer| tag_spec(c)),
        decreases batch.len(),
    {
        let ghost b0 = batch@;
        let ghost k: int = orig.len() - b0.len();
        let c = batch.remove(0);
        proof {
            assert(b0 == orig.skip(k));
            assert(0 <= k < orig.len());
            assert(c == b0[0]);
            assert(c == orig[k]);
            assert(batch@ =~= orig.skip(k + 1));
            assert(orig.take(k + 1).drop_last() =~= orig.take(k));
            assert(orig.take(k + 1).last() == orig[k]);
        }
        let ghost r0 = r@;
        if matches_group(&c, c_last, c_d_id, c_w_id) {
            let t = tag_customer(c);
            r.push(t);
            proof {
                reveal(Seq::filter);
                assert(orig.take(k + 1).filter(p) == orig.take(k).filter(p).push(orig[k]));
                assert(orig.take(k + 1).filter(p).map_values(tag_fn) =~= r0.push(t));
            }
        } else {
            proof {
                reveal(Seq::filter);
                assert(orig.take(k + 1).filter(p) == orig.take(k).filter(p));
            }
        }
    }
    proof {
        assert(orig.take(orig.len() as int) =~= orig);
    }
    r
}


/// Remove the first retained record whose sum key is `k`, if any.
pub open spec fn remove_first_key(s: Seq<TaggedCustomer>, k: i64) -> Seq<TaggedCustomer>
    decreases s.len(),
{
    if s.len() == 0 {
        s
    } else if s.first().sum_key == k {
        s.drop_first()
    } else {
        seq![s.first()] + remove_first_key(s.drop_first(), k)
    }
}

/// Counted removal: for each key of `ks`, in order, remove at most one
/// retained record with that sum key.  Keys that match nothing are ignored.
pub open spec fn remove_keys(s: Seq<TaggedCustomer>, ks: Seq<i64>) -> Seq<TaggedCustomer>
    decreases ks.len(),
{
    if ks.len() == 0 {
        s
    } else {
        remove_keys(remove_first_key(s, ks.first()), ks.drop_first())
    }
}

/// Removing one key keeps the sequence sorted and keeps only elements that
/// were already there.
pub proof fn lemma_remove_first_key_ensures(
    s: Seq<TaggedCustomer>,
    k: i64,
    leq: spec_fn(TaggedCustomer, TaggedCustomer) -> bool,
)
    requires
        sorted_by(s, leq),
    ensures
        remove_first_key(s, k).len() <= s.len(),
        sorted_by(remove_first_key(s, k), leq),
        forall|i: int|
            0 <= i < remove_first_key(s, k).len() ==> s.contains(
                #[trigger] remove_first_key(s, k)[i],
            ),
    decreases s.len(),
{
    let r = remove_first_key(s, k);
    if s.len() == 0 {
    } else if s.first().sum_key == k {
        assert forall|i: int| 0 <= i < r.len() implies s.contains(#[trigger] r[i]) by {
            assert(r[i] == s[i + 1]);
        }
    } else {
        let r0 = remove_first_key(s.drop_first(), k);
        assert(sorted_by(s.drop_first(), leq)) by {
            assert forall|i: int, j: int|
                0 <= i < j < s.drop_first().len() implies leq(
                s.drop_first()[i],
                s.drop_first()[j],
            ) by {
                assert(s.drop_first()[i] == s[i + 1]);
                assert(s.drop_first()[j] == s[j + 1]);
            }
        }
        lemma_remove_first_key_ensures(s.drop_first(), k, leq);
        assert forall|i: int| 0 <= i < r.len() implies s.contains(#[trigger] r[i]) by {
            if i == 0 {
                assert(r[0] == s[0]);
            } else {
                assert(r[i] == r0[i - 1]);
                assert(s.drop_first().contains(r0[i - 1]));
                let j = choose|j: int|
                    0 <= j < s.drop_first().len() && s.drop_first()[j] == r0[i - 1];
                assert(s[j + 1] == r[i]);
            }
        }
        assert forall|i: int, j: int| 0 <= i < j < r.len() implies leq(r[i], r[j]) by {
            if i == 0 {
                assert(s.contains(r[j]));
                let m = choose|m: int| 0 <= m < s.len() && s[m] == r[j];
                if m > 0 {
                    assert(leq(s[0], s[m]));
                } else {
                    assert(r[j] == r0[j - 1]);
                    assert(s.drop_first().contains(r0[j - 1]));
                    let n = choose|n: int|
                        0 <= n < s.drop_first().len() && s.drop_first()[n] == r0[j - 1];
                    assert(leq(s[0], s[n + 1]));
                }
            } else {
                assert(r[i] == r0[i - 1] && r[j] == r0[j - 1]);
            }
        }
    }
}

/// Counted removal of a key sequence keeps the aggregate sorted and keeps
/// only elements that were already there.
pub proof fn lemma_remove_keys_ensures(
    s: Seq<TaggedCustomer>,
    ks: Seq<i64>,
    leq: spec_fn(TaggedCustomer, TaggedCustomer) -> bool,
)
    requires
        sorted_by(s, leq),
    ensures
        remove_keys(s, ks).len() <= s.len(),
        sorted_by(remove_keys(s, ks), leq),
        forall|i: int|
            0 <= i < remove_keys(s, ks).len() ==> s.contains(#[trigger] remove_keys(s, ks)[i]),
    decreases ks.len(),
{
    if ks.len() > 0 {
        let r1 = remove_first_key(s, ks.first());
        lemma_remove_first_key_ensures(s, ks.first(), leq);
        lemma_remove_keys_ensures(r1, ks.drop_first(), leq);
        let r = remove_keys(s, ks);
        assert forall|i: int| 0 <= i < r.len() implies s.contains(#[trigger] r[i]) by {
            assert(r1.contains(r[i]));
            let j = choose|j: int| 0 <= j < r1.len() && r1[j] == r[i];
            assert(s.contains(r1[j]));
        }
    }
}

/// Appending one more key to the removal sequence removes that key last.
proof fn lemma_remove_keys_snoc(s: Seq<TaggedCustomer>, ks: Seq<i64>, k: i64)
    ensures
        remove_keys(s, ks.push(k)) == remove_first_key(remove_keys(s, ks), k),
    decreases ks.len(),
{
    if ks.len() == 0 {
        assert(ks.push(k).first() == k);
        assert(ks.push(k).drop_first() =~= Seq::<i64>::empty());
        assert(remove_keys(remove_first_key(s, k), Seq::<i64>::empty()) == remove_first_key(
            s,
            k,
        ));
        assert(remove_keys(s, ks.push(k)) == remove_first_key(s, k));
        assert(remove_keys(s, ks) == s);
    } else {
        assert(ks.push(k).first() == ks.first());
        assert(ks.push(k).drop_first() =~= ks.drop_first().push(k));
        lemma_remove_keys_snoc(remove_first_key(s, ks.first()), ks.drop_first(), k);
    }
}

/// Where the first matching element sits, there the removal acts.
proof fn lemma_remove_first_key_at(s: Seq<TaggedCustomer>, k: i64, i: int)
    requires
        0 <= i <= s.len(),
        forall|m: int| 0 <= m < i ==> s[m].sum_key != k,
        i < s.len() ==> s[i].sum_key == k,
    ensures
        i == s.len() ==> remove_first_key(s, k) == s,
        i < s.len() ==> remove_first_key(s, k) == s.remove(i),
    decreases i,
{
    if s.len() == 0 {
    } else if i == 0 {
        assert(s.first().sum_key == k);
        assert(s.drop_first() =~= s.remove(0));
    } else {
        assert(s[0].sum_key != k);
        lemma_remove_first_key_at(s.drop_first(), k, i - 1);
        if i == s.len() {
            assert(seq![s.first()] + s.drop_first() =~= s);
        } else {
            assert(s.drop_first()[i - 1].sum_key == k);
            assert(seq![s.first()] + s.drop_first().remove(i - 1) =~= s.remove(i));
        }
    }
}

/// Remove from the aggregate, in order, at most one record per pending
/// deletion key.
fn apply_deletions(agg: Vec<TaggedCustomer>, pending: &Vec<i64>) -> (r: Vec<TaggedCustomer>)
    ensures
        r@ == remove_keys(agg@, pending@),
{
    let ghost orig = agg@;
    let mut agg = agg;
    let mut j: usize = 0;
    proof {
        assert(pending@.take(0) =~= Seq::<i64>::empty());
    }
    while j < pending.len()
        invariant
            j <= pending@.len(),
            agg@ == remove_keys(orig, pending@.take(j as int)),
        decreases pending@.len() - j,
    {
        let key = pending[j];
        let ghost a0 = agg@;
        let mut i: usize = 0;
        while i < agg.len() && agg[i].sum_key != key
            invariant
                i <= agg@.len(),
                agg@ == a0,
                forall|m: int| 0 <= m < i ==> a0[m].sum_key != key,
            decreases agg@.len() - i,
        {
            i = i + 1;
        }
        proof {
            lemma_remove_first_key_at(a0, key, i as int);
        }
        if i < agg.len() {
            agg.remove(i);
        }
        proof {
            lemma_remove_keys_snoc(orig, pending@.take(j as int), key);
            assert(pending@.take(j as int + 1) =~= pending@.take(j as int).push(key));
        }
        j = j + 1;
    }
    proof {
        assert(pending@.take(pending@.len() as int) =~= pending@);
    }
    agg
}

/// The sum keys of the tagged, filtered records of a batch.
fn keys_of(tb: &Vec<TaggedCustomer>) -> (r: Vec<i64>)
    ensures
        r@ == tb@.map_values(|t: TaggedCustomer| t.sum_key),
{
    let ghost key_fn = |t: TaggedCustomer| t.sum_key;
    let mut r: Vec<i64> = Vec::new();
    let mut i: usize = 0;
    proof {
        assert(r@ =~= tb@.take(0).map_values(key_fn));
    }
    while i < tb.len()
        invariant
            i <= tb@.len(),
            r@ == tb@.take(i as int).map_values(key_fn),
            key_fn == (|t: TaggedCustomer| t.sum_key),
        decreases tb@.len() - i,
    {
        let ghost r0 = r@;
        r.push(tb[i].sum_key);
        proof {
            assert(tb@.take(i as int + 1).map_values(key_fn) =~= r0.push(tb@[i as int].sum_key));
        }
        i = i + 1;
    }
    proof {
        assert(tb@.take(tb@.len() as int) =~= tb@);
    }
    r
}


/// The tagged, filtered records of one tick's batch, sorted by sort key:
/// what the tick merges into the aggregate.
pub open spec fn tick_batch(
    batch: Seq<Customer>,
    c_last: Seq<char>,
    c_d_id: int,
    c_w_id: int,
) -> Seq<TaggedCustomer> {
    sort_with(tagged_batch(batch, c_last, c_d_id, c_w_id), tagged_order())
}

/// The deletion keys that a tick's deletion batch contributes, to be applied
/// one tick later.
pub open spec fn staged_keys(
    deletions: Seq<Customer>,
    c_last: Seq<char>,
    c_d_id: int,
    c_w_id: int,
) -> Seq<i64> {
    tagged_batch(deletions, c_last, c_d_id, c_w_id).map_values(|t: TaggedCustomer| t.sum_key)
}

/// The aggregate after one tick, as a function of the state before it.
pub open spec fn tick_aggregate(
    agg: Seq<TaggedCustomer>,
    pending: Seq<i64>,
    batch: Seq<Customer>,
    with_deletions: bool,
    c_last: Seq<char>,
    c_d_id: int,
    c_w_id: int,
) -> Seq<TaggedCustomer> {
    let bf = tick_batch(batch, c_last, c_d_id, c_w_id);
    if bf.len() == 0 {
        agg
    } else if with_deletions {
        merge_with(remove_keys(agg, pending), bf, tagged_order())
    } else {
        merge_with(agg, bf, tagged_order())
    }
}

/// The staged deletion keys after one tick.
pub open spec fn tick_pending(
    pending: Seq<i64>,
    batch: Seq<Customer>,
    deletions: Seq<Customer>,
    with_deletions: bool,
    c_last: Seq<char>,
    c_d_id: int,
    c_w_id: int,
) -> Seq<i64> {
    if !with_deletions {
        pending
    } else {
        let bf = tick_batch(batch, c_last, c_d_id, c_w_id);
        let staged = staged_keys(deletions, c_last, c_d_id, c_w_id);
        if bf.len() == 0 {
            pending + staged
        } else {
            staged
        }
    }
}

/// The median a tick publishes, as the view of the selected record: the
/// record at position `len / 2` of the tick's aggregate, or nothing when the
/// tick's filtered batch is empty.
pub open spec fn tick_median_view(
    agg: Seq<TaggedCustomer>,
    pending: Seq<i64>,
    batch: Seq<Customer>,
    with_deletions: bool,
    c_last: Seq<char>,
    c_d_id: int,
    c_w_id: int,
) -> Option<CustomerView> {
    let bf = tick_batch(batch, c_last, c_d_id, c_w_id);
    if bf.len() == 0 {
        None
    } else {
        let m = tick_aggregate(agg, pending, batch, with_deletions, c_last, c_d_id, c_w_id);
        Some(m[m.len() as int / 2].customer@)
    }
}

/// The view of an optionally published record.
pub open spec fn opt_customer_view(o: Option<Customer>) -> Option<CustomerView> {
    match o {
        Some(c) => Some(c@),
        None => None,
    }
}

/// The incremental median engine for one filter group.
///
/// `previous_aggregate` holds, sorted by sort key, the tagged records of the
/// group retained from earlier ticks; `pending_deletions` holds the sum keys
/// staged by the previous tick's deletion batch, not yet applied.
pub struct MedianEngine {
    pub c_last: String,
    pub c_d_id: i32,
    pub c_w_id: i32,
    pub previous_aggregate: Vec<TaggedCustomer>,
    pub pending_deletions: Vec<i64>,
}

impl MedianEngine {
    /// The engine invariant: the aggregate is sorted by sort key, every
    /// retained record belongs to the engine's group, and every tag is the
    /// sum key of its record.
    pub open spec fn wf(&self) -> bool {
        &&& sorted_by(self.previous_aggregate@, tagged_order())
        &&& forall|i: int|
            0 <= i < self.previous_aggregate@.len() ==> matches_spec(
                (#[trigger] self.previous_aggregate@[i]).customer,
                self.c_last@,
                self.c_d_id as int,
                self.c_w_id as int,
            )
        &&& forall|i: int|
            0 <= i < self.previous_aggregate@.len() ==> (
            #[trigger] self.previous_aggregate@[i]).sum_key == sum_key_spec(
                self.previous_aggregate@[i].customer,
            )
    }

    /// A fresh engine for the given group, with an empty aggregate and no
    /// pending deletions.
    pub fn new(c_last: String, c_d_id: i32, c_w_id: i32) -> (e: Self)
        ensures
            e.wf(),
            e.c_last@ == c_last@,
            e.c_d_id == c_d_id,
            e.c_w_id == c_w_id,
            e.previous_aggregate@ == Seq::<TaggedCustomer>::empty(),
            e.pending_deletions@ == Seq::<i64>::empty(),
    {
        MedianEngine {
            c_last,
            c_d_id,
            c_w_id,
            previous_aggregate: Vec::new(),
            pending_deletions: Vec::new(),
        }
    }

    /// One tick of the variant without deletions.
    ///
    /// The batch is tagged, filtered and sorted.  If nothing of the group is
    /// left, the tick is a no-op: the aggregate is unchanged and no median is
    /// published.  Otherwise the sorted batch is merged into the aggregate
    /// and the record at position `len / 2` of the merge is published.
    pub fn step(&mut self, batch: Vec<Customer>) -> (r: Option<Customer>)
        requires
            old(self).wf(),
        ensures
            final(self).wf(),
            final(self).c_last == old(self).c_last,
            final(self).c_d_id == old(self).c_d_id,
            final(self).c_w_id == old(self).c_w_id,
            final(self).pending_deletions == old(self).pending_deletions,
            final(self).previous_aggregate@ == tick_aggregate(
                old(self).previous_aggregate@,
                old(self).pending_deletions@,
                batch@,
                false,
                old(self).c_last@,
                old(self).c_d_id as int,
                old(self).c_w_id as int,
            ),
            opt_customer_view(r) == tick_median_view(
                old(self).previous_aggregate@,
                old(self).pending_deletions@,
                batch@,
                false,
                old(self).c_last@,
                old(self).c_d_id as int,
                old(self).c_w_id as int,
            ),
            r is Some <==> tick_batch(
                batch@,
                old(self).c_last@,
                old(self).c_d_id as int,
                old(self).c_w_id as int,
            ).len() > 0,
    {
        proof {
            lemma_tagged_order_properties();
        }
        let tb = tag_and_filter(batch, self.c_last.as_str(), self.c_d_id, self.c_w_id);
        let bf = sort_stable(tb);
        if bf.len() == 0 {
            return None;
        }
        let ghost old_agg = self.previous_aggregate@;
        let ghost bfv = bf@;
        let mut prev: Vec<TaggedCustomer> = Vec::new();
        core::mem::swap(&mut prev, &mut self.previous_aggregate);
        let merged = merge_sorted(prev, bf);
        proof {
            lemma_merge_with_ensures(old_agg, bfv, tagged_order());
            lemma_sort_with_ensures(
                tagged_batch(
                    batch@,
                    self.c_last@,
                    self.c_d_id as int,
                    self.c_w_id as int,
                ),
                tagged_order(),
            );
            lemma_tagged_batch_elements(
                batch@,
                self.c_last@,
                self.c_d_id as int,
                self.c_w_id as int,
            );
            let tbv = tagged_batch(batch@, self.c_last@, self.c_d_id as int, self.c_w_id as int);
            assert forall|i: int| 0 <= i < merged@.len() implies matches_spec(
                (#[trigger] merged@[i]).customer,
                self.c_last@,
                self.c_d_id as int,
                self.c_w_id as int,
            ) && merged@[i].sum_key == sum_key_spec(merged@[i].customer) by {
                if old_agg.contains(merged@[i]) {
                    let j = choose|j: int| 0 <= j < old_agg.len() && old_agg[j] == merged@[i];
                } else {
                    assert(bfv.contains(merged@[i]));
                    let j = choose|j: int| 0 <= j < bfv.len() && bfv[j] == merged@[i];
                    assert(tbv.contains(bfv[j]));
                    let m = choose|m: int| 0 <= m < tbv.len() && tbv[m] == bfv[j];
                }
            }
        }
        let idx = merged.len() / 2;
        let median = merged[idx].customer.clone();
        self.previous_aggregate = merged;
        Some(median)
    }

    /// One tick of the variant with deletions.
    ///
    /// The deletion batch is tagged and filtered the same way as an insert
    /// batch, and its sum keys are staged for the next tick.  If the tick's
    /// own batch is empty of the group, the tick is a no-op for the
    /// aggregate, the staged keys join the still-pending ones, and no median
    /// is published.  Otherwise the keys pending from the previous tick are
    /// removed from the aggregate (each key removing at most one record), the
    /// sorted batch is merged in, and the record at position `len / 2` of the
    /// merge is published.
    pub fn step_with_deletions(&mut self, batch: Vec<Customer>, deletions: Vec<Customer>) -> (r:
        Option<Customer>)
        requires
            old(self).wf(),
        ensures
            final(self).wf(),
            final(self).c_last == old(self).c_last,
            final(self).c_d_id == old(self).c_d_id,
            final(self).c_w_id == old(self).c_w_id,
            final(self).previous_aggregate@ == tick_aggregate(
                old(self).previous_aggregate@,
                old(self).pending_deletions@,
                batch@,
                true,
                old(self).c_last@,
                old(self).c_d_id as int,
                old(self).c_w_id as int,
            ),
            final(self).pending_deletions@ == tick_pending(
                old(self).pending_deletions@,
                batch@,
                deletions@,
                true,
                old(self).c_last@,
                old(self).c_d_id as int,
                old(self).c_w_id as int,
            ),
            opt_customer_view(r) == tick_median_view(
                old(self).previous_aggregate@,
                old(self).pending_deletions@,
                batch@,
                true,
                old(self).c_last@,
                old(self).c_d_id as int,
                old(self).c_w_id as int,
            ),
            r is Some <==> tick_batch(
                batch@,
                old(self).c_last@,
                old(self).c_d_id as int,
                old(self).c_w_id as int,
            ).len() > 0,
    {
        proof {
            lemma_tagged_order_properties();
        }
        let staged_tagged = tag_and_filter(
            deletions,
            self.c_last.as_str(),
            self.c_d_id,
            self.c_w_id,
        );
        let mut staged = keys_of(&staged_tagged);
        let tb = tag_and_filter(batch, self.c_last.as_str(), self.c_d_id, self.c_w_id);
        let bf = sort_stable(tb);
        if bf.len() == 0 {
            self.pending_deletions.append(&mut staged);
            return None;
        }
        let ghost old_agg = self.previous_aggregate@;
        let ghost old_pending = self.pending_deletions@;
        let ghost bfv = bf@;
        let mut prev: Vec<TaggedCustomer> = Vec::new();
        core::mem::swap(&mut prev, &mut self.previous_aggregate);
        let mut pending: Vec<i64> = Vec::new();
        core::mem::swap(&mut pending, &mut self.pending_deletions);
        let after = apply_deletions(prev, &pending);
        proof {
            lemma_remove_keys_ensures(old_agg, old_pending, tagged_order());
        }
        let merged = merge_sorted(after, bf);
        proof {
            let afterv = remove_keys(old_agg, old_pending);
            lemma_merge_with_ensures(afterv, bfv, tagged_order());
            lemma_sort_with_ensures(
                tagged_batch(
                    batch@,
                    self.c_last@,
                    self.c_d_id as int,
                    self.c_w_id as int,
                ),
                tagged_order(),
            );
            lemma_tagged_batch_elements(
                batch@,
                self.c_last@,
                self.c_d_id as int,
                self.c_w_id as int,
            );
            let tbv = tagged_batch(batch@, self.c_last@, self.c_d_id as int, self.c_w_id as int);
            assert forall|i: int| 0 <= i < merged@.len() implies matches_spec(
                (#[trigger] merged@[i]).customer,
                self.c_last@,
                self.c_d_id as int,
                self.c_w_id as int,
            ) && merged@[i].sum_key == sum_key_spec(merged@[i].customer) by {
                if afterv.contains(merged@[i]) {
                    let j = choose|j: int| 0 <= j < afterv.len() && afterv[j] == merged@[i];
                    assert(old_agg.contains(afterv[j]));
                    let m = choose|m: int| 0 <= m < old_agg.len() && old_agg[m] == afterv[j];
                } else {
                    assert(bfv.contains(merged@[i]));
                    let j = choose|j: int| 0 <= j < bfv.len() && bfv[j] == merged@[i];
                    assert(tbv.contains(bfv[j]));
                    let m = choose|m: int| 0 <= m < tbv.len() && tbv[m] == bfv[j];
                }
            }
        }
        let idx = merged.len() / 2;
        let median = merged[idx].customer.clone();
        self.previous_aggregate = merged;
        self.pending_deletions = staged;
        Some(median)
    }
}


/// No two elements carry the same sum key.
pub open spec fn distinct_keys(s: Seq<TaggedCustomer>) -> bool {
    forall|i: int, j: int|
        0 <= i < j < s.len() ==> (#[trigger] s[i]).sum_key != (#[trigger] s[j]).sum_key
}

/// Sorting keeps sum keys pairwise distinct.
proof fn lemma_sort_preserves_distinct_keys(
    s: Seq<TaggedCustomer>,
    leq: spec_fn(TaggedCustomer, TaggedCustomer) -> bool,
)
    requires
        total_preorder(leq),
        distinct_keys(s),
    ensures
        distinct_keys(sort_with(s, leq)),
{
    broadcast use vstd::seq_lib::group_to_multiset_ensures;

    let r = sort_with(s, leq);
    lemma_sort_with_ensures(s, leq);
    assert(s.no_duplicates()) by {
        assert forall|i: int, j: int| 0 <= i < s.len() && 0 <= j < s.len() && i != j implies s[i]
            != s[j] by {
            if i < j {
                assert(s[i].sum_key != s[j].sum_key);
            } else {
                assert(s[j].sum_key != s[i].sum_key);
            }
        }
    }
    s.lemma_multiset_has_no_duplicates();
    r.lemma_multiset_has_no_duplicates_conv();
    assert forall|i: int, j: int| 0 <= i < j < r.len() implies (#[trigger] r[i]).sum_key != (
    #[trigger] r[j]).sum_key by {
        assert(r[i] != r[j]) by {
            assert(r.no_duplicates());
        }
        assert(s.contains(r[i]));
        assert(s.contains(r[j]));
        let a = choose|a: int| 0 <= a < s.len() && s[a] == r[i];
        let b = choose|b: int| 0 <= b < s.len() && s[b] == r[j];
        assert(a != b);
        if a < b {
            assert(s[a].sum_key != s[b].sum_key);
        } else {
            assert(s[b].sum_key != s[a].sum_key);
        }
    }
}

/// Filtering keeps sum keys pairwise distinct.
proof fn lemma_filter_preserves_distinct_keys(s: Seq<TaggedCustomer>, q: spec_fn(
    TaggedCustomer,
) -> bool)
    requires
        distinct_keys(s),
    ensures
        distinct_keys(s.filter(q)),
    decreases s.len(),
{
    reveal(Seq::filter);
    if s.len() > 0 {
        let h = s.drop_last();
        assert(distinct_keys(h)) by {
            assert forall|i: int, j: int| 0 <= i < j < h.len() implies (
            #[trigger] h[i]).sum_key != (#[trigger] h[j]).sum_key by {
                assert(h[i] == s[i] && h[j] == s[j]);
            }
        }
        lemma_filter_preserves_distinct_keys(h, q);
        lemma_filter_subset(h, q);
        let r = s.filter(q);
        assert forall|i: int, j: int| 0 <= i < j < r.len() implies (#[trigger] r[i]).sum_key != (
        #[trigger] r[j]).sum_key by {
            if q(s.last()) && j == r.len() - 1 {
                assert(r[j] == s.last());
                assert(r[i] == h.filter(q)[i]);
                assert(h.contains(h.filter(q)[i]));
                let a = choose|a: int| 0 <= a < h.len() && h[a] == h.filter(q)[i];
                assert(s[a] == r[i]);
                assert(s[a].sum_key != s[s.len() - 1].sum_key);
            } else {
                assert(r[i] == h.filter(q)[i] && r[j] == h.filter(q)[j]);
            }
        }
    }
}

/// When sum keys are pairwise distinct, removing the first record with a key
/// is removing every record with that key.
proof fn lemma_remove_first_key_as_filter(s: Seq<TaggedCustomer>, k: i64)
    requires
        distinct_keys(s),
    ensures
        remove_first_key(s, k) == s.filter(|t: TaggedCustomer| t.sum_key != k),
    decreases s.len(),
{
    reveal(Seq::filter);
    let q = |t: TaggedCustomer| t.sum_key != k;
    if s.len() == 0 {
    } else {
        let h = s.drop_first();
        assert(distinct_keys(h)) by {
            assert forall|i: int, j: int| 0 <= i < j < h.len() implies (
            #[trigger] h[i]).sum_key != (#[trigger] h[j]).sum_key by {
                assert(h[i] == s[i + 1] && h[j] == s[j + 1]);
            }
        }
        assert(s =~= seq![s[0]] + h);
        Seq::filter_distributes_over_add(seq![s[0]], h, q);
        assert(seq![s[0]].drop_last() =~= Seq::<TaggedCustomer>::empty());
        if s.first().sum_key == k {
            assert(!q(s[0]));
            assert(Seq::<TaggedCustomer>::empty().filter(q) =~= Seq::<TaggedCustomer>::empty());
            assert(seq![s[0]].filter(q) =~= Seq::<TaggedCustomer>::empty());
            assert forall|i: int| 0 <= i < h.len() implies q(#[trigger] h[i]) by {
                assert(h[i] == s[i + 1]);
                assert(s[0].sum_key != s[i + 1].sum_key);
            }
            lemma_filter_all(h, q);
            assert(s.filter(q) =~= h);
        } else {
            lemma_remove_first_key_as_filter(h, k);
            assert(seq![s[0]].filter(q) =~= seq![s[0]]);
        }
    }
}

/// When sum keys are pairwise distinct, counted removal of a key sequence is
/// a plain filter: exactly the records whose key is named leave.
pub proof fn lemma_remove_keys_as_filter(s: Seq<TaggedCustomer>, ks: Seq<i64>)
    requires
        distinct_keys(s),
    ensures
        remove_keys(s, ks) == s.filter(|t: TaggedCustomer| !ks.contains(t.sum_key)),
    decreases ks.len(),
{
    let keep = |t: TaggedCustomer| !ks.contains(t.sum_key);
    if ks.len() == 0 {
        assert forall|i: int| 0 <= i < s.len() implies keep(#[trigger] s[i]) by {}
        lemma_filter_all(s, keep);
    } else {
        let k = ks.first();
        let rest = ks.drop_first();
        let q1 = |t: TaggedCustomer| t.sum_key != k;
        let q2 = |t: TaggedCustomer| !rest.contains(t.sum_key);
        lemma_remove_first_key_as_filter(s, k);
        let s1 = s.filter(q1);
        lemma_filter_preserves_distinct_keys(s, q1);
        lemma_remove_keys_as_filter(s1, rest);
        lemma_filter_filter(s, q1, q2);
        let both = |t: TaggedCustomer| q1(t) && q2(t);
        assert forall|t: TaggedCustomer| #[trigger] both(t) == keep(t) by {
            assert(ks.contains(t.sum_key) <==> (t.sum_key == k || rest.contains(t.sum_key)))
                by {
                if ks.contains(t.sum_key) {
                    let i = choose|i: int| 0 <= i < ks.len() && ks[i] == t.sum_key;
                    if i > 0 {
                        assert(rest[i - 1] == t.sum_key);
                    }
                } else {
                    if rest.contains(t.sum_key) {
                        let i = choose|i: int| 0 <= i < rest.len() && rest[i] == t.sum_key;
                        assert(ks[i + 1] == t.sum_key);
                    }
                }
            }
        }
        assert(both =~= keep);
    }
}


/// Deletion equivalence: a deletion batch introduced with the first tick and
/// applied at the second produces the same second-tick median as running the
/// deletion-free variant on a base batch from which the records named by the
/// deletion keys were removed before the first tick; when the second tick
/// does work, the whole retained aggregates agree.  The base batch's records
/// retained by the filter must carry pairwise distinct sum keys, as one
/// deletion removes only one matching record.
pub proof fn lemma_deletion_equivalence(
    base: Seq<Customer>,
    updates: Seq<Customer>,
    deletions: Seq<Customer>,
    c_last: Seq<char>,
    c_d_id: int,
    c_w_id: int,
)
    requires
        distinct_keys(tagged_batch(base, c_last, c_d_id, c_w_id)),
    ensures
        ({
            let ks = staged_keys(deletions, c_last, c_d_id, c_w_id);
            let kept = |c: Customer| !ks.contains(tag_spec(c).sum_key);
            let no_agg = Seq::<TaggedCustomer>::empty();
            let no_keys = Seq::<i64>::empty();
            let a1 = tick_aggregate(no_agg, no_keys, base, true, c_last, c_d_id, c_w_id);
            let p1 = tick_pending(no_keys, base, deletions, true, c_last, c_d_id, c_w_id);
            let b1 = tick_aggregate(
                no_agg,
                no_keys,
                base.filter(kept),
                false,
                c_last,
                c_d_id,
                c_w_id,
            );
            &&& tick_median_view(a1, p1, updates, true, c_last, c_d_id, c_w_id)
                == tick_median_view(b1, no_keys, updates, false, c_last, c_d_id, c_w_id)
            &&& tick_batch(updates, c_last, c_d_id, c_w_id).len() > 0 ==> tick_aggregate(
                a1,
                p1,
                updates,
                true,
                c_last,
                c_d_id,
                c_w_id,
            ) == tick_aggregate(b1, no_keys, updates, false, c_last, c_d_id, c_w_id)
        }),
{
    lemma_tagged_order_properties();
    let lt = tagged_order();
    let p = group_pred(c_last, c_d_id, c_w_id);
    let tag_fn = |c: Customer| tag_spec(c);
    let ks = staged_keys(deletions, c_last, c_d_id, c_w_id);
    let kq = |t: TaggedCustomer| !ks.contains(t.sum_key);
    let kept = |c: Customer| !ks.contains(tag_spec(c).sum_key);
    let no_agg = Seq::<TaggedCustomer>::empty();
    let no_keys = Seq::<i64>::empty();
    let tb1 = tagged_batch(base, c_last, c_d_id, c_w_id);
    let bf1 = tick_batch(base, c_last, c_d_id, c_w_id);
    let a1 = tick_aggregate(no_agg, no_keys, base, true, c_last, c_d_id, c_w_id);
    let p1 = tick_pending(no_keys, base, deletions, true, c_last, c_d_id, c_w_id);
    let base_kept = base.filter(kept);
    let b1 = tick_aggregate(no_agg, no_keys, base_kept, false, c_last, c_d_id, c_w_id);
    lemma_sort_with_ensures(tb1, lt);

    // The first tick leaves exactly the sorted batch as the aggregate, and
    // stages exactly the deletion keys.
    assert(a1 == bf1) by {
        if bf1.len() == 0 {
            assert(bf1 =~= no_agg);
        } else {
            assert(remove_keys(no_agg, no_keys) == no_agg);
            assert(merge_with(no_agg, bf1, lt) == bf1);
        }
    }
    assert(p1 == ks) by {
        if bf1.len() == 0 {
            assert(no_keys + ks =~= ks);
        }
    }

    // The pre-filtered base batch tags to the filtered tagged batch.
    let tb1_kept = tagged_batch(base_kept, c_last, c_d_id, c_w_id);
    assert(tb1_kept == tb1.filter(kq)) by {
        lemma_filter_filter(base, kept, p);
        lemma_filter_filter(base, p, kept);
        let kp = |c: Customer| kept(c) && p(c);
        let pk = |c: Customer| p(c) && kept(c);
        assert forall|c: Customer| #[trigger] kp(c) == pk(c) by {}
        assert(kp =~= pk);
        let pre = |c: Customer| kq(tag_fn(c));
        assert forall|c: Customer| #[trigger] pre(c) == kept(c) by {}
        assert(pre =~= kept);
        lemma_filter_map_commute(base.filter(p), tag_fn, kq);
    }

    // Applying the staged deletions to the retained aggregate leaves the
    // sorted pre-filtered batch.
    assert(remove_keys(a1, p1) == b1) by {
        lemma_sort_preserves_distinct_keys(tb1, lt);
        lemma_remove_keys_as_filter(bf1, ks);
        assert((|t: TaggedCustomer| !ks.contains(t.sum_key)) == kq);
        lemma_sort_with_filter(tb1, kq, lt);
        let bf1_kept = tick_batch(base_kept, c_last, c_d_id, c_w_id);
        assert(bf1_kept == sort_with(tb1.filter(kq), lt));
        lemma_sort_with_ensures(tb1.filter(kq), lt);
        assert(b1 == bf1_kept) by {
            if bf1_kept.len() == 0 {
                assert(bf1_kept =~= no_agg);
            } else {
                assert(merge_with(no_agg, bf1_kept, lt) == bf1_kept);
            }
        }
    }

    // The second tick merges the same sorted update batch into equal
    // aggregates, or is a no-op on both sides.
    let bf2 = tick_batch(updates, c_last, c_d_id, c_w_id);
    if bf2.len() == 0 {
    } else {
        assert(tick_aggregate(a1, p1, updates, true, c_last, c_d_id, c_w_id) == merge_with(
            remove_keys(a1, p1),
            bf2,
            lt,
        ));
        assert(tick_aggregate(b1, no_keys, updates, false, c_last, c_d_id, c_w_id) == merge_with(
            b1,
            bf2,
            lt,
        ));
    }
}


/// Idempotence of the empty tick: a tick whose incoming batch is empty
/// carries the aggregate forward unchanged and publishes no median, whether
/// or not the engine handles deletions.
pub proof fn lemma_noop_tick(
    agg: Seq<TaggedCustomer>,
    pending: Seq<i64>,
    with_deletions: bool,
    c_last: Seq<char>,
    c_d_id: int,
    c_w_id: int,
)
    ensures
        tick_aggregate(agg, pending, Seq::<Customer>::empty(), with_deletions, c_last, c_d_id,
            c_w_id) == agg,
        tick_median_view(agg, pending, Seq::<Customer>::empty(), with_deletions, c_last, c_d_id,
            c_w_id) is None,
{
    reveal(Seq::filter);
    let e = Seq::<Customer>::empty();
    assert(tagged_batch(e, c_last, c_d_id, c_w_id) =~= Seq::<TaggedCustomer>::empty());
    assert(tick_batch(e, c_last, c_d_id, c_w_id).len() == 0);
}


/// With nothing staged for deletion, the two engine variants produce
/// identical merged aggregates and medians: the deletion handling of one
/// tick is exactly the counted removal, and removing no keys changes nothing.
pub proof fn lemma_variants_agree_without_deletions(
    agg: Seq<TaggedCustomer>,
    batch: Seq<Customer>,
    c_last: Seq<char>,
    c_d_id: int,
    c_w_id: int,
)
    ensures
        tick_aggregate(agg, Seq::<i64>::empty(), batch, true, c_last, c_d_id, c_w_id)
            == tick_aggregate(agg, Seq::<i64>::empty(), batch, false, c_last, c_d_id, c_w_id),
        tick_median_view(agg, Seq::<i64>::empty(), batch, true, c_last, c_d_id, c_w_id)
            == tick_median_view(agg, Seq::<i64>::empty(), batch, false, c_last, c_d_id, c_w_id),
{
    assert(remove_keys(agg, Seq::<i64>::empty()) == agg);
}

} // verus!
