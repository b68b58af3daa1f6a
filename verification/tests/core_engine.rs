use byname::baseline::{median_inlined, median_sort_fold};
use byname::engine::MedianEngine;
use byname::generator::generate_customers;
use byname::pipeline::{
    median_incremental_sort_inlined, median_incremental_sort_inlined_with_deletions,
};
use byname::record::Customer;

fn cust(id: i32, d: i32, w: i32, first: &str, last: &str) -> Customer {
    Customer {
        c_id: id,
        c_d_id: d,
        c_w_id: w,
        c_first: first.to_string(),
        c_middle: String::new(),
        c_last: last.to_string(),
        c_street_1: None,
        c_street_2: None,
        c_city: None,
        c_state: None,
        c_zip: None,
        c_phone: None,
        c_credit: None,
        c_since: None,
    }
}

fn group_cust(id: i32, first: &str) -> Customer {
    cust(id, 43, 44, first, "lastname")
}

#[test]
fn test_median_incremental_sort_inlined() {
    let (base_vals, update_vals, delete_vals, transaction_paramters) = generate_customers(10, 3, 2);

    let mut flow = median_incremental_sort_inlined(
        base_vals,
        update_vals,
        delete_vals,
        transaction_paramters.3.clone().unwrap(),
        transaction_paramters.2.unwrap(),
        transaction_paramters.1.unwrap(),
    );

    flow.run_available();
}

#[test]
fn test_median_incremental_sort_inlined_with_deletions() {
    let (base_vals, update_vals, delete_vals, transaction_paramters) = generate_customers(10, 3, 2);

    let mut flow = median_incremental_sort_inlined_with_deletions(
        base_vals,
        update_vals,
        delete_vals,
        transaction_paramters.3.clone().unwrap(),
        transaction_paramters.2.unwrap(),
        transaction_paramters.1.unwrap(),
    );

    flow.run_available();
}

#[test]
fn median_equivalence_two_ticks() {
    // Ten base records and three updates, no deletions: the engine's
    // second-tick median must match both baselines on the concatenation.
    let (base, updates, _dels, params) = generate_customers(10, 3, 0);
    let c_last = params.3.clone().unwrap();

    let mut flow = median_incremental_sort_inlined(
        base.clone(),
        updates.clone(),
        Vec::new(),
        c_last.clone(),
        params.2.unwrap(),
        params.1.unwrap(),
    );
    flow.run_available();
    assert_eq!(flow.medians.len(), 2);
    let engine_median = flow.medians[1].clone().expect("second tick must publish a median");

    let mut all = base;
    all.extend(updates);
    let baseline =
        median_inlined(all.clone(), c_last.clone(), params.2.unwrap(), params.1.unwrap())
            .expect("baseline must publish a median");
    let baseline2 = median_sort_fold(all, c_last, params.2.unwrap(), params.1.unwrap())
        .expect("baseline must publish a median");

    // Thirteen first names "0".."12" sort lexicographically as
    // 0,1,10,11,12,2,3,...,9; position 13 / 2 = 6 holds "3".
    assert_eq!(engine_median.c_first, "3");
    assert_eq!(engine_median.c_id, 3);
    assert_eq!(baseline.c_id, engine_median.c_id);
    assert_eq!(baseline.c_first, engine_median.c_first);
    assert_eq!(baseline2.c_id, engine_median.c_id);
}

#[test]
fn deletion_equivalence_two_ticks() {
    // Deletions drawn from the median-adjacent slice of the base batch must
    // leave the same second-tick median as a deletion-free run on a base
    // batch with those records removed.
    let (base, updates, dels, params) = generate_customers(10, 3, 2);
    let c_last = params.3.clone().unwrap();
    let deleted_ids: Vec<i32> = dels.iter().map(|c| c.c_id).collect();

    let mut flow = median_incremental_sort_inlined_with_deletions(
        base.clone(),
        updates.clone(),
        dels,
        c_last.clone(),
        params.2.unwrap(),
        params.1.unwrap(),
    );
    flow.run_available();
    let engine_median = flow.medians[1].clone().expect("second tick must publish a median");

    let mut pruned: Vec<Customer> =
        base.into_iter().filter(|c| !deleted_ids.contains(&c.c_id)).collect();
    pruned.extend(updates);
    let baseline = median_inlined(pruned, c_last, params.2.unwrap(), params.1.unwrap())
        .expect("baseline must publish a median");

    // Records 0,1,2,5..9 and 10..12 remain; the eleven first names sort as
    // 0,1,10,11,12,2,5,6,7,8,9 and position 11 / 2 = 5 holds "2".
    assert_eq!(engine_median.c_first, "2");
    assert_eq!(engine_median.c_id, 2);
    assert_eq!(baseline.c_id, engine_median.c_id);
    assert_eq!(baseline.c_first, engine_median.c_first);
}

#[test]
fn noop_tick_preserves_aggregate() {
    let mut engine = MedianEngine::new("lastname".to_string(), 43, 44);
    let first = engine.step(vec![group_cust(1, "b"), group_cust(2, "a")]);
    assert!(first.is_some());
    let before: Vec<i32> = engine.previous_aggregate.iter().map(|t| t.customer.c_id).collect();

    // An empty batch is a no-op: no median, identical aggregate.
    let second = engine.step(Vec::new());
    assert!(second.is_none());
    let after: Vec<i32> = engine.previous_aggregate.iter().map(|t| t.customer.c_id).collect();
    assert_eq!(before, after);

    // A batch with no record of the group is a no-op as well.
    let third = engine.step(vec![cust(7, 43, 44, "c", "othername")]);
    assert!(third.is_none());
    let after_foreign: Vec<i32> =
        engine.previous_aggregate.iter().map(|t| t.customer.c_id).collect();
    assert_eq!(before, after_foreign);
}

#[test]
fn aggregate_sorted_after_each_tick() {
    let (base, updates, _dels, params) = generate_customers(9, 4, 0);
    let c_last = params.3.clone().unwrap();
    let mut engine = MedianEngine::new(c_last, params.2.unwrap(), params.1.unwrap());

    engine.step(base);
    for w in engine.previous_aggregate.windows(2) {
        assert!(w[0].customer.c_first <= w[1].customer.c_first);
    }

    engine.step(updates);
    for w in engine.previous_aggregate.windows(2) {
        assert!(w[0].customer.c_first <= w[1].customer.c_first);
    }
}

#[test]
fn predicate_excludes_foreign_records() {
    let mut engine = MedianEngine::new("lastname".to_string(), 43, 44);
    let batch = vec![
        group_cust(1, "d"),
        cust(2, 43, 44, "a", "othername"),
        cust(3, 99, 44, "b", "lastname"),
        cust(4, 43, 99, "c", "lastname"),
        group_cust(5, "e"),
    ];
    engine.step(batch);
    let ids: Vec<i32> = engine.previous_aggregate.iter().map(|t| t.customer.c_id).collect();
    assert_eq!(ids, vec![1, 5]);
}

#[test]
fn stable_merge_prefers_previous_aggregate() {
    // Two records share the sort key "x"; the retained record stays ahead of
    // the newly merged one.
    let mut engine = MedianEngine::new("lastname".to_string(), 43, 44);
    engine.step(vec![group_cust(1, "x")]);
    engine.step(vec![group_cust(2, "x")]);
    let ids: Vec<i32> = engine.previous_aggregate.iter().map(|t| t.customer.c_id).collect();
    assert_eq!(ids, vec![1, 2]);
}

#[test]
fn empty_collection_yields_no_median() {
    assert!(median_inlined(Vec::new(), "lastname".to_string(), 43, 44).is_none());
    assert!(median_sort_fold(Vec::new(), "lastname".to_string(), 43, 44).is_none());
    let others = vec![cust(1, 1, 1, "a", "someone")];
    assert!(median_inlined(others, "lastname".to_string(), 43, 44).is_none());
}

#[test]
fn deletions_staged_one_tick_late() {
    let mut engine = MedianEngine::new("lastname".to_string(), 43, 44);
    let base = vec![group_cust(1, "a"), group_cust(2, "b"), group_cust(3, "c")];
    let doomed = vec![group_cust(2, "b")];

    // The deletion arrives with the first tick but must not act on it.
    engine.step_with_deletions(base, doomed);
    let ids: Vec<i32> = engine.previous_aggregate.iter().map(|t| t.customer.c_id).collect();
    assert_eq!(ids, vec![1, 2, 3]);
    assert_eq!(engine.pending_deletions.len(), 1);

    // It acts at the start of the second tick.
    engine.step_with_deletions(vec![group_cust(4, "d")], Vec::new());
    let ids: Vec<i32> = engine.previous_aggregate.iter().map(|t| t.customer.c_id).collect();
    assert_eq!(ids, vec![1, 3, 4]);
    assert!(engine.pending_deletions.is_empty());
}

#[test]
fn unmatched_deletion_is_ignored() {
    let mut engine = MedianEngine::new("lastname".to_string(), 43, 44);
    engine.step_with_deletions(vec![group_cust(1, "a")], vec![group_cust(99, "z")]);
    engine.step_with_deletions(vec![group_cust(2, "b")], Vec::new());
    let ids: Vec<i32> = engine.previous_aggregate.iter().map(|t| t.customer.c_id).collect();
    assert_eq!(ids, vec![1, 2]);
}

#[test]
fn one_deletion_removes_at_most_one_record() {
    // Two retained records share a sum key; one deletion removes only one.
    let mut engine = MedianEngine::new("lastname".to_string(), 43, 44);
    let twin_a = group_cust(5, "a");
    let twin_b = group_cust(5, "b");
    engine.step_with_deletions(vec![twin_a, twin_b], vec![group_cust(5, "a")]);
    engine.step_with_deletions(vec![group_cust(6, "c")], Vec::new());
    assert_eq!(engine.previous_aggregate.len(), 2);
}

#[test]
fn pipeline_noop_second_tick() {
    // An empty update batch makes the second tick a no-op: no median is
    // published and the aggregate is carried forward unchanged.
    let (base, updates, dels, params) = generate_customers(6, 0, 0);
    assert!(updates.is_empty());
    let mut flow = median_incremental_sort_inlined(
        base,
        updates,
        dels,
        params.3.unwrap(),
        params.2.unwrap(),
        params.1.unwrap(),
    );
    flow.run_available();
    assert_eq!(flow.medians.len(), 2);
    assert!(flow.medians[0].is_some());
    assert!(flow.medians[1].is_none());
    assert_eq!(flow.engine.previous_aggregate.len(), 6);
}

#[test]
fn deletions_up_to_end_of_base() {
    // The deletion slice may run to the very end of the base batch.
    let (base, _updates, dels, _params) = generate_customers(4, 0, 2);
    let del_ids: Vec<i32> = dels.iter().map(|c| c.c_id).collect();
    let expected: Vec<i32> = base[2..4].iter().map(|c| c.c_id).collect();
    assert_eq!(del_ids, expected);
}
