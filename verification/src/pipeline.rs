//! The tick-driven pipeline around the incremental engine.
//!
//! A `MedianFlow` packages an engine with the batches still to be consumed,
//! one batch per tick.  `run` advances exactly one tick; `run_available`
//! drains all pending ticks.  The medians published so far are collected in
//! `medians`, one entry per completed tick, in tick order.
//!
//! `median_incremental_sort_inlined` builds the two-tick flow of the
//! benchmark — the base batch at the first tick, the update batch at the
//! second — without deletion handling; its deletion argument is accepted and
//! ignored.  `median_incremental_sort_inlined_with_deletions` stages the
//! deletion batch at the first tick, so that it takes effect at the second.

use vstd::prelude::*;
use crate::engine::{
    opt_customer_view, tick_aggregate, tick_median_view, tick_pending, MedianEngine,
};
use crate::record::{Customer, CustomerView, TaggedCustomer};

verus! {

/// The engine state and the published median views after draining all queued
/// ticks: the final aggregate, the final staged deletion keys, and one median
/// view per tick, in tick order.  The next tick's batch is the last element
/// of the queues.
pub open spec fn drain_flow(
    agg: Seq<TaggedCustomer>,
    pending: Seq<i64>,
    batches: Seq<Vec<Customer>>,
    deletion_batches: Seq<Vec<Customer>>,
    with_deletions: bool,
    c_last: Seq<char>,
    c_d_id: int,
    c_w_id: int,
) -> (Seq<TaggedCustomer>, Seq<i64>, Seq<Option<CustomerView>>)
    decreases batches.len(),
{
    if batches.len() == 0 {
        (agg, pending, Seq::<Option<CustomerView>>::empty())
    } else {
        let b = batches.last()@;
        let d = if deletion_batches.len() == 0 {
            Seq::<Customer>::empty()
        } else {
            deletion_batches.last()@
        };
        let m = tick_median_view(agg, pending, b, with_deletions, c_last, c_d_id, c_w_id);
        let agg1 = tick_aggregate(agg, pending, b, with_deletions, c_last, c_d_id, c_w_id);
        let pending1 = tick_pending(pending, b, d, with_deletions, c_last, c_d_id, c_w_id);
        let rest = drain_flow(
            agg1,
            pending1,
            batches.drop_last(),
            deletion_batches.drop_last(),
            with_deletions,
            c_last,
            c_d_id,
            c_w_id,
        );
        (rest.0, rest.1, seq![m] + rest.2)
    }
}

/// The views of the medians published so far.
pub open spec fn median_views(ms: Seq<Option<Customer>>) -> Seq<Option<CustomerView>> {
    ms.map_values(|o: Option<Customer>| opt_customer_view(o))
}

/// A tick-driven median pipeline: the engine, the batches it has not yet
/// consumed (the next tick's batch last), and the medians published so far.
pub struct MedianFlow {
    pub engine: MedianEngine,
    pub batches: Vec<Vec<Customer>>,
    pub deletion_batches: Vec<Vec<Customer>>,
    pub with_deletions: bool,
    pub medians: Vec<Option<Customer>>,
}

impl MedianFlow {
    /// The flow invariant: a well-formed engine and one deletion batch per
    /// queued batch.
    pub open spec fn wf(&self) -> bool {
        &&& self.engine.wf()
        &&& self.batches@.len() == self.deletion_batches@.len()
    }

    /// Advance exactly one tick, if a batch is still queued: feed the next
    /// batch (and, in the deletion-handling variant, the next deletion batch)
    /// to the engine and record the published median.
    pub fn run(&mut self)
        requires
            old(self).wf(),
        ensures
            final(self).wf(),
            final(self).with_deletions == old(self).with_deletions,
            final(self).engine.c_last == old(self).engine.c_last,
            final(self).engine.c_d_id == old(self).engine.c_d_id,
            final(self).engine.c_w_id == old(self).engine.c_w_id,
            old(self).batches@.len() == 0 ==> *final(self) == *old(self),
            old(self).batches@.len() > 0 ==> {
                let b = old(self).batches@.last()@;
                let d = old(self).deletion_batches@.last()@;
                let agg = old(self).engine.previous_aggregate@;
                let pending = old(self).engine.pending_deletions@;
                let c_last = old(self).engine.c_last@;
                let c_d_id = old(self).engine.c_d_id as int;
                let c_w_id = old(self).engine.c_w_id as int;
                let w = old(self).with_deletions;
                &&& final(self).batches@ == old(self).batches@.drop_last()
                &&& final(self).deletion_batches@ == old(self).deletion_batches@.drop_last()
                &&& final(self).engine.previous_aggregate@ == tick_aggregate(
                    agg,
                    pending,
                    b,
                    w,
                    c_last,
                    c_d_id,
                    c_w_id,
                )
                &&& final(self).engine.pending_deletions@ == tick_pending(
                    pending,
                    b,
                    d,
                    w,
                    c_last,
                    c_d_id,
                    c_w_id,
                )
                &&& median_views(final(self).medians@) == median_views(old(self).medians@).push(
                    tick_median_view(agg, pending, b, w, c_last, c_d_id, c_w_id),
                )
            },
    {
        if self.batches.len() == 0 {
            return ;
        }
        let ghost medians0 = self.medians@;
        let batch = self.batches.pop().unwrap();
        let dels = self.deletion_batches.pop().unwrap();
        let m = if self.with_deletions {
            self.engine.step_with_deletions(batch, dels)
        } else {
            self.engine.step(batch)
        };
        self.medians.push(m);
        proof {
            assert(median_views(self.medians@) =~= median_views(medians0).push(
                opt_customer_view(m),
            ));
        }
    }

    /// Drain every queued tick, in order.  The engine ends in the state that
    /// `drain_flow` assigns, and one median view per tick is appended to the
    /// published medians, in tick order.
    pub fn run_available(&mut self)
        requires
            old(self).wf(),
        ensures
            final(self).wf(),
            final(self).with_deletions == old(self).with_deletions,
            final(self).engine.c_last == old(self).engine.c_last,
            final(self).engine.c_d_id == old(self).engine.c_d_id,
            final(self).engine.c_w_id == old(self).engine.c_w_id,
            final(self).batches@.len() == 0,
            final(self).deletion_batches@.len() == 0,
            ({
                let t = drain_flow(
                    old(self).engine.previous_aggregate@,
                    old(self).engine.pending_deletions@,
                    old(self).batches@,
                    old(self).deletion_batches@,
                    old(self).with_deletions,
                    old(self).engine.c_last@,
                    old(self).engine.c_d_id as int,
                    old(self).engine.c_w_id as int,
                );
                &&& final(self).engine.previous_aggregate@ == t.0
                &&& final(self).engine.pending_deletions@ == t.1
                &&& median_views(final(self).medians@) == median_views(old(self).medians@) + t.2
            }),
    {
        let ghost medians0 = median_views(self.medians@);
        let ghost target = drain_flow(
            self.engine.previous_aggregate@,
            self.engine.pending_deletions@,
            self.batches@,
            self.deletion_batches@,
            self.with_deletions,
            self.engine.c_last@,
            self.engine.c_d_id as int,
            self.engine.c_w_id as int,
        );
        while self.batches.len() > 0
            invariant
                self.wf(),
                self.with_deletions == old(self).with_deletions,
                self.engine.c_last == old(self).engine.c_last,
                self.engine.c_d_id == old(self).engine.c_d_id,
                self.engine.c_w_id == old(self).engine.c_w_id,
                ({
                    let cur = drain_flow(
                        self.engine.previous_aggregate@,
                        self.engine.pending_deletions@,
                        self.batches@,
                        self.deletion_batches@,
                        self.with_deletions,
                        self.engine.c_last@,
                        self.engine.c_d_id as int,
                        self.engine.c_w_id as int,
                    );
                    &&& cur.0 == target.0
                    &&& cur.1 == target.1
                    &&& median_views(self.medians@) + cur.2 == medians0 + target.2
                }),
            decreases self.batches@.len(),
        {
            let ghost pre = drain_flow(
                self.engine.previous_aggregate@,
                self.engine.pending_deletions@,
                self.batches@,
                self.deletion_batches@,
                self.with_deletions,
                self.engine.c_last@,
                self.engine.c_d_id as int,
                self.engine.c_w_id as int,
            );
            let ghost med_pre = median_views(self.medians@);
            self.run();
            proof {
                let cur = drain_flow(
                    self.engine.previous_aggregate@,
                    self.engine.pending_deletions@,
                    self.batches@,
                    self.deletion_batches@,
                    self.with_deletions,
                    self.engine.c_last@,
                    self.engine.c_d_id as int,
                    self.engine.c_w_id as int,
                );
                assert(pre.2 == seq![pre.2[0]] + cur.2);
                assert(median_views(self.medians@) + cur.2 =~= med_pre + (seq![
                    pre.2[0],
                ] + cur.2));
            }
        }
        proof {
            let cur = drain_flow(
                self.engine.previous_aggregate@,
                self.engine.pending_deletions@,
                self.batches@,
                self.deletion_batches@,
                self.with_deletions,
                self.engine.c_last@,
                self.engine.c_d_id as int,
                self.engine.c_w_id as int,
            );
            assert(median_views(self.medians@) + cur.2 =~= median_views(self.medians@));
        }
    }
}

/// Build the two-tick incremental flow without deletion handling: the base
/// batch is consumed at the first tick and the update batch at the second.
/// The deletion batch is accepted and ignored, as in the variant this mirrors.
pub fn median_incremental_sort_inlined(
    customer_data: Vec<Customer>,
    customer_data_update: Vec<Customer>,
    _customer_data_deletion: Vec<Customer>,
    c_last: String,
    c_d_id: i32,
    c_w_id: i32,
) -> (f: MedianFlow)
    ensures
        f.wf(),
        !f.with_deletions,
        f.engine.c_last@ == c_last@,
        f.engine.c_d_id == c_d_id,
        f.engine.c_w_id == c_w_id,
        f.engine.previous_aggregate@ == Seq::<TaggedCustomer>::empty(),
        f.engine.pending_deletions@ == Seq::<i64>::empty(),
        f.batches@.len() == 2,
        f.batches@[1] == customer_data,
        f.batches@[0] == customer_data_update,
        f.deletion_batches@.len() == 2,
        f.deletion_batches@[1]@ == Seq::<Customer>::empty(),
        f.deletion_batches@[0]@ == Seq::<Customer>::empty(),
        f.medians@ == Seq::<Option<Customer>>::empty(),
{
    let engine = MedianEngine::new(c_last, c_d_id, c_w_id);
    let mut batches: Vec<Vec<Customer>> = Vec::new();
    batches.push(customer_data_update);
    batches.push(customer_data);
    let mut deletion_batches: Vec<Vec<Customer>> = Vec::new();
    deletion_batches.push(Vec::new());
    deletion_batches.push(Vec::new());
    MedianFlow {
        engine,
        batches,
        deletion_batches,
        with_deletions: false,
        medians: Vec::new(),
    }
}

/// Build the two-tick incremental flow with deletion handling: the deletion
/// batch enters with the first tick and is therefore applied to the retained
/// aggregate at the start of the second tick, before the update batch is
/// merged.
pub fn median_incremental_sort_inlined_with_deletions(
    customer_data: Vec<Customer>,
    customer_data_update: Vec<Customer>,
    customer_data_deletion: Vec<Customer>,
    c_last: String,
    c_d_id: i32,
    c_w_id: i32,
) -> (f: MedianFlow)
    ensures
        f.wf(),
        f.with_deletions,
        f.engine.c_last@ == c_last@,
        f.engine.c_d_id == c_d_id,
        f.engine.c_w_id == c_w_id,
        f.engine.previous_aggregate@ == Seq::<TaggedCustomer>::empty(),
        f.engine.pending_deletions@ == Seq::<i64>::empty(),
        f.batches@.len() == 2,
        f.batches@[1] == customer_data,
        f.batches@[0] == customer_data_update,
        f.deletion_batches@.len() == 2,
        f.deletion_batches@[1] == customer_data_deletion,
        f.deletion_batches@[0]@ == Seq::<Customer>::empty(),
        f.medians@ == Seq::<Option<Customer>>::empty(),
{
    let engine = MedianEngine::new(c_last, c_d_id, c_w_id);
    let mut batches: Vec<Vec<Customer>> = Vec::new();
    batches.push(customer_data_update);
    batches.push(customer_data);
    let mut deletion_batches: Vec<Vec<Customer>> = Vec::new();
    deletion_batches.push(Vec::new());
    deletion_batches.push(customer_data_deletion);
    MedianFlow {
        engine,
        batches,
        deletion_batches,
        with_deletions: true,
        medians: Vec::new(),
    }
}

} // verus!
