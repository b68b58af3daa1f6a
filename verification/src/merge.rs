//! The sorted-merge primitive and the stable sort, as executable functions.
//!
//! Both are generic over an element type whose `PartialOrd` implementation
//! Verus knows a specification for (`obeys_partial_cmp_spec`) and whose
//! `<=` relation is a total preorder.  Their results are pinned exactly to
//! the specification functions `merge_with` and `sort_with`.

use vstd::prelude::*;
use vstd::relations::sorted_by;
use vstd::std_specs::cmp::PartialOrdSpec;
use core::cmp::Ordering;
use crate::seq_order::{insert_with, merge_with, sort_with, total_preorder};
use crate::seq_order::{lemma_merge_with_ensures, lemma_sort_with_ensures};

verus! {

/// The `<=` relation that a type's `partial_cmp` specification induces.
pub open spec fn leq_from_cmp<T: PartialOrd>() -> spec_fn(T, T) -> bool {
    |x: T, y: T| matches!(x.partial_cmp_spec(&y), Some(Ordering::Less | Ordering::Equal))
}

/// The comparison of `T` is specified, and orders `T` as a total preorder.
pub open spec fn cmp_is_total_preorder<T: PartialOrd>() -> bool {
    &&& T::obeys_partial_cmp_spec()
    &&& total_preorder(leq_from_cmp::<T>())
}

/// Merge two sequences, each already sorted, into one sorted sequence in a
/// single pass, consuming both inputs.  The output is pinned exactly:
/// it is `merge_with` of the two inputs, so it has length `a.len() + b.len()`,
/// holds exactly the elements of `a` and `b`, is sorted, and on ties the
/// element of `a` comes first.
pub fn merge_sorted<T: PartialOrd + Clone>(a: Vec<T>, b: Vec<T>) -> (r: Vec<T>)
    requires
        cmp_is_total_preorder::<T>(),
        sorted_by(a@, leq_from_cmp::<T>()),
        sorted_by(b@, leq_from_cmp::<T>()),
    ensures
        r@ == merge_with(a@, b@, leq_from_cmp::<T>()),
        r@.len() == a@.len() + b@.len(),
        r@.to_multiset() == a@.to_multiset().add(b@.to_multiset()),
        sorted_by(r@, leq_from_cmp::<T>()),
{
    let ghost leq = leq_from_cmp::<T>();
    let ghost target = merge_with(a@, b@, leq);
    proof {
        lemma_merge_with_ensures(a@, b@, leq);
    }
    let mut a = a;
    let mut b = b;
    let mut stack: Vec<T> = Vec::new();
    while a.len() > 0 && b.len() > 0
        invariant
            cmp_is_total_preorder::<T>(),
            merge_with(a@, b@, leq) + stack@.reverse() == target,
            leq == leq_from_cmp::<T>(),
        decreases a.len() + b.len(),
    {
        let ghost a0 = a@;
        let ghost b0 = b@;
        let take_b = a[a.len() - 1].le(&b[b.len() - 1]);
        if take_b {
            let x = b.pop().unwrap();
            proof {
                assert(b@ =~= b0.drop_last());
                assert(merge_with(a0, b0, leq) == merge_with(a@, b@, leq).push(x));
            }
            stack.push(x);
            proof {
                assert(merge_with(a@, b@, leq) + stack@.reverse() =~= merge_with(a0, b0, leq)
                    + stack@.drop_last().reverse());
            }
        } else {
            let x = a.pop().unwrap();
            proof {
                assert(a@ =~= a0.drop_last());
                assert(merge_with(a0, b0, leq) == merge_with(a@, b@, leq).push(x));
            }
            stack.push(x);
            proof {
                assert(merge_with(a@, b@, leq) + stack@.reverse() =~= merge_with(a0, b0, leq)
                    + stack@.drop_last().reverse());
            }
        }
    }
    let mut r = if b.len() == 0 {
        proof {
            assert(merge_with(a@, b@, leq) == a@);
        }
        a
    } else {
        proof {
            assert(merge_with(a@, b@, leq) == b@);
        }
        b
    };
    while stack.len() > 0
        invariant
            r@ + stack@.reverse() == target,
        decreases stack.len(),
    {
        let ghost s0 = stack@;
        let ghost r0 = r@;
        let x = stack.pop().unwrap();
        r.push(x);
        proof {
            assert(stack@ =~= s0.drop_last());
            assert(s0.reverse() =~= seq![x] + stack@.reverse());
            assert(r@ + stack@.reverse() =~= r0 + s0.reverse());
        }
    }
    proof {
        assert(r@ =~= r@ + stack@.reverse());
    }
    r
}

/// Insert one element into a vector at the position `insert_with` assigns:
/// after every element it does not strictly precede.
pub fn insert_in_order<T: PartialOrd>(r: &mut Vec<T>, x: T)
    requires
        cmp_is_total_preorder::<T>(),
    ensures
        final(r)@ == insert_with(old(r)@, x, leq_from_cmp::<T>()),
{
    let ghost leq = leq_from_cmp::<T>();
    let ghost r0 = r@;
    let mut pos = r.len();
    proof {
        assert(r0.take(r0.len() as int) =~= r0);
        assert(insert_with(r0, x, leq) + r0.skip(r0.len() as int) =~= insert_with(r0, x, leq));
    }
    while pos > 0 && !(r[pos - 1].le(&x))
        invariant
            cmp_is_total_preorder::<T>(),
            leq == leq_from_cmp::<T>(),
            pos <= r@.len(),
            r@ == r0,
            insert_with(r0, x, leq) == insert_with(r0.take(pos as int), x, leq) + r0.skip(
                pos as int,
            ),
        decreases pos,
    {
        proof {
            let t = r0.take(pos as int);
            assert(t.last() == r0[pos - 1]);
            assert(t.drop_last() =~= r0.take(pos - 1));
            assert(insert_with(t, x, leq) == insert_with(r0.take(pos - 1), x, leq).push(
                r0[pos - 1],
            ));
            assert(insert_with(r0.take(pos - 1), x, leq).push(r0[pos - 1]) + r0.skip(
                pos as int,
            ) =~= insert_with(r0.take(pos - 1), x, leq) + r0.skip(pos - 1));
        }
        pos = pos - 1;
    }
    proof {
        if pos > 0 {
            let t = r0.take(pos as int);
            assert(t.last() == r0[pos - 1]);
            assert(insert_with(t, x, leq) == t.push(x));
        } else {
            assert(r0.take(0) =~= Seq::<T>::empty());
            assert(r0.skip(0) =~= r0);
        }
        assert(insert_with(r0, x, leq) =~= r0.insert(pos as int, x));
    }
    r.insert(pos, x);
}

/// Sort a sequence stably: the result is `sort_with` of the input, so it has
/// the same elements, is sorted, and elements the order cannot distinguish
/// keep their arrival order.
pub fn sort_stable<T: PartialOrd>(v: Vec<T>) -> (r: Vec<T>)
    requires
        cmp_is_total_preorder::<T>(),
    ensures
        r@ == sort_with(v@, leq_from_cmp::<T>()),
        r@.len() == v@.len(),
        r@.to_multiset() == v@.to_multiset(),
        sorted_by(r@, leq_from_cmp::<T>()),
{
    let ghost leq = leq_from_cmp::<T>();
    let ghost orig = v@;
    proof {
        lemma_sort_with_ensures(orig, leq);
    }
    let mut v = v;
    let mut r: Vec<T> = Vec::new();
    while v.len() > 0
        invariant
            cmp_is_total_preorder::<T>(),
            leq == leq_from_cmp::<T>(),
            v@.len() <= orig.len(),
            v@ == orig.skip(orig.len() - v@.len()),
            r@ == sort_with(orig.take(orig.len() - v@.len()), leq),
        decreases v.len(),
    {
        let ghost v0 = v@;
        let ghost k: int = orig.len() - v0.len();
        let x = v.remove(0);
        proof {
            assert(v0 == orig.skip(k));
            assert(0 <= k < orig.len());
            assert(x == v0[0]);
            assert(x == orig[k]);
            assert(v@ =~= orig.skip(k + 1));
        }
        let ghost r0 = r@;
        insert_in_order(&mut r, x);
        proof {
            assert(orig.take(k + 1).drop_last() =~= orig.take(k));
            assert(orig.take(k + 1).last() == orig[k]);
            assert(sort_with(orig.take(k + 1), leq) == insert_with(
                sort_with(orig.take(k), leq),
                orig[k],
                leq,
            ));
        }
    }
    proof {
        assert(orig.take(orig.len() as int) =~= orig);
    }
    r
}

} // verus!
