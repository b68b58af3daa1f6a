//! Specification-level stable sorting and merging of sequences.
//!
//! All definitions are parameterized by a relation `leq` that must be a total
//! preorder (`total_preorder`): any two elements are comparable and the
//! relation is transitive.  Antisymmetry is deliberately not required, since
//! the engine orders records by a sort key that distinct records may share;
//! ties are instead resolved stably, by arrival order.
//!
//! `insert_with` places a new element after every element it does not strictly
//! precede, `sort_with` is the stable insertion sort built from it, and
//! `merge_with` combines two sorted sequences, emitting elements of the left
//! sequence first on ties.

use vstd::prelude::*;
use vstd::relations::{sorted_by, strongly_connected, transitive};

verus! {

/// The ordering relations accepted by the sorting and merging operations:
/// any two elements are comparable, and the relation is transitive.
pub open spec fn total_preorder<A>(leq: spec_fn(A, A) -> bool) -> bool {
    &&& strongly_connected(leq)
    &&& transitive(leq)
}

/// Insert `x` into `s` after every element `e` of `s` with `leq(e, x)`.
/// On a sorted sequence this keeps the sequence sorted and places `x`
/// after any elements it ties with.
pub open spec fn insert_with<A>(s: Seq<A>, x: A, leq: spec_fn(A, A) -> bool) -> Seq<A>
    decreases s.len(),
{
    if s.len() == 0 {
        seq![x]
    } else if leq(s.last(), x) {
        s.push(x)
    } else {
        insert_with(s.drop_last(), x, leq).push(s.last())
    }
}

/// Stable insertion sort: elements are inserted in arrival order, so elements
/// that the relation cannot distinguish keep their original relative order.
pub open spec fn sort_with<A>(s: Seq<A>, leq: spec_fn(A, A) -> bool) -> Seq<A>
    decreases s.len(),
{
    if s.len() == 0 {
        s
    } else {
        insert_with(sort_with(s.drop_last(), leq), s.last(), leq)
    }
}

/// Merge two sorted sequences into one sorted sequence.  The recursion works
/// from the back: the strictly greatest remaining element is emitted last, and
/// on ties the element of `b` is emitted after the element of `a`, so the
/// elements of `a` come first in the result.
pub open spec fn merge_with<A>(a: Seq<A>, b: Seq<A>, leq: spec_fn(A, A) -> bool) -> Seq<A>
    decreases a.len() + b.len(),
{
    if a.len() == 0 {
        b
    } else if b.len() == 0 {
        a
    } else if leq(a.last(), b.last()) {
        merge_with(a, b.drop_last(), leq).push(b.last())
    } else {
        merge_with(a.drop_last(), b, leq).push(a.last())
    }
}

/// What `insert_with` does: one element longer, the same elements plus `x`,
/// sorted if the input was sorted.
pub proof fn lemma_insert_with_ensures<A>(s: Seq<A>, x: A, leq: spec_fn(A, A) -> bool)
    requires
        total_preorder(leq),
        sorted_by(s, leq),
    ensures
        insert_with(s, x, leq).len() == s.len() + 1,
        insert_with(s, x, leq).to_multiset() == s.to_multiset().insert(x),
        sorted_by(insert_with(s, x, leq), leq),
        forall|i: int|
            0 <= i < s.len() + 1 ==> insert_with(s, x, leq)[i] == x || s.contains(
                #[trigger] insert_with(s, x, leq)[i],
            ),
    decreases s.len(),
{
    broadcast use vstd::seq_lib::group_to_multiset_ensures;

    let r = insert_with(s, x, leq);
    if s.len() == 0 {
        assert(seq![x].to_multiset() =~= s.to_multiset().insert(x)) by {
            assert(seq![x] =~= s.push(x));
        }
    } else if leq(s.last(), x) {
        assert(forall|i: int| 0 <= i < s.len() ==> leq(#[trigger] s[i], x)) by {
            assert forall|i: int| 0 <= i < s.len() implies leq(#[trigger] s[i], x) by {
                if i < s.len() - 1 {
                    assert(leq(s[i], s.last()));
                }
            }
        }
    } else {
        let h = s.drop_last();
        let r0 = insert_with(h, x, leq);
        lemma_insert_with_ensures(h, x, leq);
        assert(s =~= h.push(s.last()));
        assert(s.to_multiset() == h.to_multiset().insert(s.last()));
        assert(r.to_multiset() =~= s.to_multiset().insert(x)) by {
            assert(r.to_multiset() == r0.to_multiset().insert(s.last()));
            assert(r0.to_multiset() == h.to_multiset().insert(x));
        }
        // x precedes s.last(), and so does every element of the shorter prefix.
        assert(leq(x, s.last()));
        assert forall|i: int, j: int| 0 <= i < j < r.len() implies leq(r[i], r[j]) by {
            if j == r.len() - 1 {
                assert(r[j] == s.last());
                assert(r[i] == r0[i]);
                if r0[i] == x {
                } else {
                    assert(h.contains(r0[i]));
                    let k = choose|k: int| 0 <= k < h.len() && h[k] == r0[i];
                    assert(leq(s[k], s.last()));
                }
            }
        }
        assert forall|i: int| 0 <= i < r.len() implies r[i] == x || s.contains(#[trigger] r[i]) by {
            if i < r.len() - 1 {
                if r0[i] != x {
                    assert(h.contains(r0[i]));
                    let k = choose|k: int| 0 <= k < h.len() && h[k] == r0[i];
                    assert(s[k] == r[i]);
                }
            } else {
                assert(r[i] == s.last());
                assert(s[s.len() - 1] == s.last());
            }
        }
    }
}

/// What `sort_with` does: same length, same elements, sorted.
pub proof fn lemma_sort_with_ensures<A>(s: Seq<A>, leq: spec_fn(A, A) -> bool)
    requires
        total_preorder(leq),
    ensures
        sort_with(s, leq).len() == s.len(),
        sort_with(s, leq).to_multiset() == s.to_multiset(),
        sorted_by(sort_with(s, leq), leq),
        forall|i: int|
            0 <= i < s.len() ==> s.contains(#[trigger] sort_with(s, leq)[i]),
    decreases s.len(),
{
    broadcast use vstd::seq_lib::group_to_multiset_ensures;

    if s.len() > 0 {
        let h = s.drop_last();
        let r0 = sort_with(h, leq);
        lemma_sort_with_ensures(h, leq);
        lemma_insert_with_ensures(r0, s.last(), leq);
        assert(s =~= h.push(s.last()));
        assert(s.to_multiset() == h.to_multiset().insert(s.last()));
        let r = sort_with(s, leq);
        assert forall|i: int| 0 <= i < s.len() implies s.contains(#[trigger] r[i]) by {
            if r[i] == s.last() {
                assert(s[s.len() - 1] == s.last());
            } else {
                assert(r0.contains(r[i]));
                let k = choose|k: int| 0 <= k < r0.len() && r0[k] == r[i];
                assert(h.contains(r0[k]));
                let m = choose|m: int| 0 <= m < h.len() && h[m] == r0[k];
                assert(s[m] == r[i]);
            }
        }
    }
}

/// What `merge_with` does: the lengths add, the elements add as multisets,
/// and merging two sorted sequences yields a sorted sequence.
pub proof fn lemma_merge_with_ensures<A>(a: Seq<A>, b: Seq<A>, leq: spec_fn(A, A) -> bool)
    requires
        total_preorder(leq),
        sorted_by(a, leq),
        sorted_by(b, leq),
    ensures
        merge_with(a, b, leq).len() == a.len() + b.len(),
        merge_with(a, b, leq).to_multiset() == a.to_multiset().add(b.to_multiset()),
        sorted_by(merge_with(a, b, leq), leq),
        forall|i: int|
            0 <= i < a.len() + b.len() ==> a.contains(#[trigger] merge_with(a, b, leq)[i])
                || b.contains(merge_with(a, b, leq)[i]),
    decreases a.len() + b.len(),
{
    broadcast use vstd::seq_lib::group_to_multiset_ensures;

    let r = merge_with(a, b, leq);
    if a.len() == 0 {
        assert(r.to_multiset() =~= a.to_multiset().add(b.to_multiset()));
    } else if b.len() == 0 {
        assert(r.to_multiset() =~= a.to_multiset().add(b.to_multiset()));
    } else {
        if leq(a.last(), b.last()) {
            let r0 = merge_with(a, b.drop_last(), leq);
            lemma_merge_with_ensures(a, b.drop_last(), leq);
            assert(sorted_by(b.drop_last(), leq));
            assert(b =~= b.drop_last().push(b.last()));
            assert(b.to_multiset() == b.drop_last().to_multiset().insert(b.last()));
            assert(r.to_multiset() =~= a.to_multiset().add(b.to_multiset())) by {
                assert(r.to_multiset() == r0.to_multiset().insert(b.last()));
            }
            assert forall|i: int, j: int| 0 <= i < j < r.len() implies leq(r[i], r[j]) by {
                if j == r.len() - 1 {
                    assert(r[j] == b.last());
                    assert(r[i] == r0[i]);
                    if a.contains(r0[i]) {
                        let k = choose|k: int| 0 <= k < a.len() && a[k] == r0[i];
                        if k < a.len() - 1 {
                            assert(leq(a[k], a.last()));
                        }
                        assert(leq(a.last(), b.last()));
                    } else {
                        assert(b.drop_last().contains(r0[i]));
                        let k = choose|k: int|
                            0 <= k < b.len() - 1 && b.drop_last()[k] == r0[i];
                        assert(leq(b[k], b.last()));
                    }
                }
            }
            assert forall|i: int|
                0 <= i < r.len() implies a.contains(#[trigger] r[i]) || b.contains(r[i]) by {
                if i == r.len() - 1 {
                    assert(b[b.len() - 1] == b.last());
                } else {
                    if b.drop_last().contains(r0[i]) {
                        let k = choose|k: int|
                            0 <= k < b.len() - 1 && b.drop_last()[k] == r0[i];
                        assert(b[k] == r[i]);
                    }
                }
            }
        } else {
            assert(leq(b.last(), a.last()));
            let r0 = merge_with(a.drop_last(), b, leq);
            lemma_merge_with_ensures(a.drop_last(), b, leq);
            assert(sorted_by(a.drop_last(), leq));
            assert(a =~= a.drop_last().push(a.last()));
            assert(a.to_multiset() == a.drop_last().to_multiset().insert(a.last()));
            assert(r.to_multiset() =~= a.to_multiset().add(b.to_multiset())) by {
                assert(r.to_multiset() == r0.to_multiset().insert(a.last()));
            }
            assert forall|i: int, j: int| 0 <= i < j < r.len() implies leq(r[i], r[j]) by {
                if j == r.len() - 1 {
                    assert(r[j] == a.last());
                    assert(r[i] == r0[i]);
                    if b.contains(r0[i]) {
                        let k = choose|k: int| 0 <= k < b.len() && b[k] == r0[i];
                        if k < b.len() - 1 {
                            assert(leq(b[k], b.last()));
                        }
                    } else {
                        assert(a.drop_last().contains(r0[i]));
                        let k = choose|k: int|
                            0 <= k < a.len() - 1 && a.drop_last()[k] == r0[i];
                        assert(leq(a[k], a.last()));
                    }
                }
            }
            assert forall|i: int|
                0 <= i < r.len() implies a.contains(#[trigger] r[i]) || b.contains(r[i]) by {
                if i == r.len() - 1 {
                    assert(a[a.len() - 1] == a.last());
                } else {
                    if a.drop_last().contains(r0[i]) {
                        let k = choose|k: int|
                            0 <= k < a.len() - 1 && a.drop_last()[k] == r0[i];
                        assert(a[k] == r[i]);
                    }
                }
            }
        }
    }
}

/// Merging a sorted sequence with a singleton is the same as inserting the
/// element.
pub proof fn lemma_merge_singleton<A>(u: Seq<A>, x: A, leq: spec_fn(A, A) -> bool)
    requires
        total_preorder(leq),
        sorted_by(u, leq),
    ensures
        merge_with(u, seq![x], leq) == insert_with(u, x, leq),
    decreases u.len(),
{
    let s = seq![x];
    if u.len() == 0 {
    } else if leq(u.last(), s.last()) {
        assert(s.drop_last() =~= Seq::<A>::empty());
        assert(merge_with(u, s, leq) == merge_with(u, s.drop_last(), leq).push(x));
    } else {
        assert(sorted_by(u.drop_last(), leq));
        lemma_merge_singleton(u.drop_last(), x, leq);
    }
}

/// Inserting a freshly arrived element into a merge of two sorted sequences
/// is the same as first inserting it into the right sequence and then
/// merging: the element ties after everything already present.
pub proof fn lemma_insert_into_merge<A>(
    u: Seq<A>,
    v: Seq<A>,
    x: A,
    leq: spec_fn(A, A) -> bool,
)
    requires
        total_preorder(leq),
        sorted_by(u, leq),
        sorted_by(v, leq),
    ensures
        insert_with(merge_with(u, v, leq), x, leq) == merge_with(u, insert_with(v, x, leq), leq),
    decreases u.len() + v.len(),
{
    let m = merge_with(u, v, leq);
    if v.len() == 0 {
        lemma_merge_singleton(u, x, leq);
        assert(insert_with(v, x, leq) =~= seq![x]);
    } else if u.len() == 0 {
        lemma_insert_with_ensures(v, x, leq);
    } else {
        assert(sorted_by(u.drop_last(), leq));
        assert(sorted_by(v.drop_last(), leq));
        if leq(v.last(), x) {
            let vp = v.push(x);
            assert(insert_with(v, x, leq) == vp);
            assert(vp.drop_last() =~= v);
            if leq(u.last(), x) {
                assert(merge_with(u, vp, leq) == merge_with(u, v, leq).push(x));
                if leq(u.last(), v.last()) {
                    assert(m == merge_with(u, v.drop_last(), leq).push(v.last()));
                    assert(leq(m.last(), x));
                } else {
                    assert(m == merge_with(u.drop_last(), v, leq).push(u.last()));
                    assert(leq(m.last(), x));
                }
                assert(insert_with(m, x, leq) == m.push(x));
            } else {
                // u.last() is strictly after x, hence also strictly after v.last().
                assert(!leq(u.last(), v.last()));
                assert(m == merge_with(u.drop_last(), v, leq).push(u.last()));
                assert(merge_with(u, vp, leq) == merge_with(u.drop_last(), vp, leq).push(
                    u.last(),
                ));
                lemma_insert_into_merge(u.drop_last(), v, x, leq);
                assert(m.drop_last() =~= merge_with(u.drop_last(), v, leq));
                assert(insert_with(m, x, leq) == insert_with(
                    merge_with(u.drop_last(), v, leq),
                    x,
                    leq,
                ).push(u.last()));
            }
        } else {
            let iv = insert_with(v, x, leq);
            assert(iv == insert_with(v.drop_last(), x, leq).push(v.last()));
            assert(iv.last() == v.last());
            assert(iv.drop_last() =~= insert_with(v.drop_last(), x, leq));
            if leq(u.last(), v.last()) {
                assert(merge_with(u, iv, leq) == merge_with(u, iv.drop_last(), leq).push(
                    v.last(),
                ));
                lemma_insert_into_merge(u, v.drop_last(), x, leq);
                assert(m == merge_with(u, v.drop_last(), leq).push(v.last()));
                assert(m.drop_last() =~= merge_with(u, v.drop_last(), leq));
                assert(insert_with(m, x, leq) == insert_with(
                    merge_with(u, v.drop_last(), leq),
                    x,
                    leq,
                ).push(v.last()));
            } else {
                // x strictly precedes v.last(), which precedes u.last().
                assert(leq(x, v.last()));
                assert(!leq(u.last(), x)) by {
                    if leq(u.last(), x) {
                        assert(leq(u.last(), v.last()));
                    }
                }
                assert(merge_with(u, iv, leq) == merge_with(u.drop_last(), iv, leq).push(
                    u.last(),
                ));
                lemma_insert_into_merge(u.drop_last(), v, x, leq);
                assert(m == merge_with(u.drop_last(), v, leq).push(u.last()));
                assert(m.drop_last() =~= merge_with(u.drop_last(), v, leq));
                assert(insert_with(m, x, leq) == insert_with(
                    merge_with(u.drop_last(), v, leq),
                    x,
                    leq,
                ).push(u.last()));
            }
        }
    }
}

/// Merging the stable sorts of two sequences yields the stable sort of their
/// concatenation: the incremental strategy and the from-scratch strategy
/// produce the same sequence, element for element.
pub proof fn lemma_merge_of_sorts<A>(a: Seq<A>, b: Seq<A>, leq: spec_fn(A, A) -> bool)
    requires
        total_preorder(leq),
    ensures
        merge_with(sort_with(a, leq), sort_with(b, leq), leq) == sort_with(a + b, leq),
    decreases b.len(),
{
    lemma_sort_with_ensures(a, leq);
    lemma_sort_with_ensures(b, leq);
    if b.len() == 0 {
        assert(a + b =~= a);
    } else {
        let h = b.drop_last();
        lemma_merge_of_sorts(a, h, leq);
        lemma_sort_with_ensures(h, leq);
        assert((a + b).drop_last() =~= a + h);
        assert((a + b).last() == b.last());
        assert(sort_with(a + b, leq) == insert_with(sort_with(a + h, leq), b.last(), leq));
        lemma_insert_into_merge(sort_with(a, leq), sort_with(h, leq), b.last(), leq);
    }
}


/// Mapping each element commutes with insertion when the map carries one
/// order to the other pointwise.
pub proof fn lemma_insert_with_map<A, B>(
    s: Seq<A>,
    x: A,
    f: spec_fn(A) -> B,
    leqa: spec_fn(A, A) -> bool,
    leqb: spec_fn(B, B) -> bool,
)
    requires
        forall|p: A, q: A| #[trigger] leqa(p, q) == leqb(f(p), f(q)),
    ensures
        insert_with(s, x, leqa).map_values(f) == insert_with(s.map_values(f), f(x), leqb),
    decreases s.len(),
{
    let sm = s.map_values(f);
    if s.len() == 0 {
        assert(seq![x].map_values(f) =~= seq![f(x)]);
        assert(sm.len() == 0);
    } else {
        assert(sm.last() == f(s.last()));
        if leqa(s.last(), x) {
            assert(s.push(x).map_values(f) =~= sm.push(f(x)));
        } else {
            lemma_insert_with_map(s.drop_last(), x, f, leqa, leqb);
            assert(s.drop_last().map_values(f) =~= sm.drop_last());
            assert(insert_with(s.drop_last(), x, leqa).push(s.last()).map_values(f)
                =~= insert_with(s.drop_last(), x, leqa).map_values(f).push(f(s.last())));
        }
    }
}

/// Mapping each element commutes with the stable sort when the map carries
/// one order to the other pointwise.
pub proof fn lemma_sort_with_map<A, B>(
    s: Seq<A>,
    f: spec_fn(A) -> B,
    leqa: spec_fn(A, A) -> bool,
    leqb: spec_fn(B, B) -> bool,
)
    requires
        forall|p: A, q: A| #[trigger] leqa(p, q) == leqb(f(p), f(q)),
    ensures
        sort_with(s, leqa).map_values(f) == sort_with(s.map_values(f), leqb),
    decreases s.len(),
{
    let sm = s.map_values(f);
    if s.len() == 0 {
        assert(sm.len() == 0);
    } else {
        lemma_sort_with_map(s.drop_last(), f, leqa, leqb);
        lemma_insert_with_map(sort_with(s.drop_last(), leqa), s.last(), f, leqa, leqb);
        assert(s.drop_last().map_values(f) =~= sm.drop_last());
        assert(sm.last() == f(s.last()));
    }
}


/// Every element the filter keeps was an element of the sequence.
pub proof fn lemma_filter_subset<A>(s: Seq<A>, p: spec_fn(A) -> bool)
    ensures
        forall|i: int| 0 <= i < s.filter(p).len() ==> s.contains(#[trigger] s.filter(p)[i]),
    decreases s.len(),
{
    reveal(Seq::filter);
    if s.len() > 0 {
        let h = s.drop_last();
        lemma_filter_subset(h, p);
        assert forall|i: int| 0 <= i < s.filter(p).len() implies s.contains(
            #[trigger] s.filter(p)[i],
        ) by {
            if p(s.last()) && i == s.filter(p).len() - 1 {
                assert(s.filter(p)[i] == s.last());
                assert(s[s.len() - 1] == s.last());
            } else {
                assert(s.filter(p)[i] == h.filter(p)[i]);
                assert(h.contains(h.filter(p)[i]));
                let j = choose|j: int| 0 <= j < h.len() && h[j] == h.filter(p)[i];
                assert(s[j] == s.filter(p)[i]);
            }
        }
    }
}

/// A filter that keeps every element changes nothing.
pub proof fn lemma_filter_all<A>(s: Seq<A>, p: spec_fn(A) -> bool)
    requires
        forall|i: int| 0 <= i < s.len() ==> p(#[trigger] s[i]),
    ensures
        s.filter(p) == s,
    decreases s.len(),
{
    reveal(Seq::filter);
    if s.len() > 0 {
        lemma_filter_all(s.drop_last(), p);
        assert(p(s.last()));
        assert(s.drop_last().push(s.last()) =~= s);
    }
}

/// Two filters in a row keep exactly the elements both predicates accept.
pub proof fn lemma_filter_filter<A>(s: Seq<A>, p: spec_fn(A) -> bool, q: spec_fn(A) -> bool)
    ensures
        s.filter(p).filter(q) == s.filter(|x: A| p(x) && q(x)),
    decreases s.len(),
{
    reveal(Seq::filter);
    let both = |x: A| p(x) && q(x);
    if s.len() == 0 {
    } else {
        lemma_filter_filter(s.drop_last(), p, q);
        let h = s.drop_last();
        let x = s.last();
        if p(x) {
            assert(h.filter(p).push(x).drop_last() =~= h.filter(p));
        }
    }
}

/// Filtering on a property of the mapped image commutes with the map.
pub proof fn lemma_filter_map_commute<A, B>(s: Seq<A>, f: spec_fn(A) -> B, q: spec_fn(B) -> bool)
    ensures
        s.filter(|x: A| q(f(x))).map_values(f) == s.map_values(f).filter(q),
    decreases s.len(),
{
    reveal(Seq::filter);
    let pre = |x: A| q(f(x));
    if s.len() == 0 {
        assert(s.filter(pre).map_values(f) =~= s.map_values(f).filter(q));
    } else {
        lemma_filter_map_commute(s.drop_last(), f, q);
        let h = s.drop_last();
        let x = s.last();
        assert(s.map_values(f) =~= h.map_values(f).push(f(x)));
        assert(s.map_values(f).drop_last() =~= h.map_values(f));
        assert(s.map_values(f).last() == f(x));
        if q(f(x)) {
            assert(h.filter(pre).push(x).map_values(f) =~= h.filter(pre).map_values(f).push(
                f(x),
            ));
        }
    }
}

/// Inserting into a sorted sequence and then filtering is the same as
/// filtering first and inserting only an accepted element.
pub proof fn lemma_insert_with_filter<A>(
    s: Seq<A>,
    x: A,
    q: spec_fn(A) -> bool,
    leq: spec_fn(A, A) -> bool,
)
    requires
        total_preorder(leq),
        sorted_by(s, leq),
    ensures
        insert_with(s, x, leq).filter(q) == if q(x) {
            insert_with(s.filter(q), x, leq)
        } else {
            s.filter(q)
        },
    decreases s.len(),
{
    reveal(Seq::filter);
    broadcast use vstd::seq_lib::group_filter_ensures;

    if s.len() == 0 {
        assert(seq![x].drop_last() =~= Seq::<A>::empty());
        if q(x) {
            assert(Seq::<A>::empty().push(x) =~= seq![x]);
        }
    } else if leq(s.last(), x) {
        assert(insert_with(s, x, leq) == s.push(x));
        assert(s.push(x).drop_last() =~= s);
        if q(x) {
            let fs = s.filter(q);
            if fs.len() > 0 {
                lemma_filter_subset(s, q);
                assert(fs.last() == fs[fs.len() - 1]);
                assert(s.contains(fs.last()));
                let j = choose|j: int| 0 <= j < s.len() && s[j] == fs.last();
                assert(leq(fs.last(), x)) by {
                    if j < s.len() - 1 {
                        assert(leq(s[j], s.last()));
                    }
                }
                assert(insert_with(fs, x, leq) == fs.push(x));
            } else {
                assert(insert_with(fs, x, leq) =~= fs.push(x));
            }
        }
    } else {
        let h = s.drop_last();
        assert(sorted_by(h, leq)) by {
            assert forall|i: int, j: int| 0 <= i < j < h.len() implies leq(h[i], h[j]) by {
                assert(h[i] == s[i] && h[j] == s[j]);
            }
        }
        lemma_insert_with_filter(h, x, q, leq);
        let r0 = insert_with(h, x, leq);
        assert(insert_with(s, x, leq) == r0.push(s.last()));
        assert(r0.push(s.last()).drop_last() =~= r0);
        if q(s.last()) {
            // s.filter(q) ends with s.last(), and x stays strictly before it.
            assert(s.filter(q) == h.filter(q).push(s.last()));
            if q(x) {
                assert(h.filter(q).push(s.last()).drop_last() =~= h.filter(q));
                assert(insert_with(s.filter(q), x, leq) == insert_with(h.filter(q), x, leq).push(
                    s.last(),
                ));
            }
        } else {
            assert(s.filter(q) == h.filter(q));
        }
    }
}

/// Sorting and then filtering is the same as filtering and then sorting.
pub proof fn lemma_sort_with_filter<A>(
    s: Seq<A>,
    q: spec_fn(A) -> bool,
    leq: spec_fn(A, A) -> bool,
)
    requires
        total_preorder(leq),
    ensures
        sort_with(s, leq).filter(q) == sort_with(s.filter(q), leq),
    decreases s.len(),
{
    reveal(Seq::filter);
    if s.len() == 0 {
    } else {
        let h = s.drop_last();
        let x = s.last();
        lemma_sort_with_filter(h, q, leq);
        lemma_sort_with_ensures(h, leq);
        lemma_insert_with_filter(sort_with(h, leq), x, q, leq);
        if q(x) {
            assert(s.filter(q) == h.filter(q).push(x));
            assert(h.filter(q).push(x).drop_last() =~= h.filter(q));
            assert(h.filter(q).push(x).last() == x);
        } else {
            assert(s.filter(q) == h.filter(q));
        }
    }
}

} // verus!
