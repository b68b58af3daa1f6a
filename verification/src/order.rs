//! Lexicographic ordering of strings by their character sequences.
//!
//! Sort keys are first-name strings; their total order is the lexicographic
//! order of the underlying unicode scalar values.  `lex_cmp` is the
//! specification-level three-way comparison, `str_compare` the verified
//! executable counterpart, and the lemmas establish that `lex_cmp` is a total
//! order on character sequences.

use vstd::prelude::*;
use vstd::string::StrSliceExecFns;
use core::cmp::Ordering;

verus! {

/// Three-way lexicographic comparison of two character sequences.
pub open spec fn lex_cmp(a: Seq<char>, b: Seq<char>) -> Ordering
    decreases a.len(),
{
    if a.len() == 0 && b.len() == 0 {
        Ordering::Equal
    } else if a.len() == 0 {
        Ordering::Less
    } else if b.len() == 0 {
        Ordering::Greater
    } else if (a[0] as int) < (b[0] as int) {
        Ordering::Less
    } else if (b[0] as int) < (a[0] as int) {
        Ordering::Greater
    } else {
        lex_cmp(a.drop_first(), b.drop_first())
    }
}

/// `a` comes no later than `b` in lexicographic order.
pub open spec fn lex_leq(a: Seq<char>, b: Seq<char>) -> bool {
    lex_cmp(a, b) != Ordering::Greater
}

/// The comparison answers `Equal` exactly on equal sequences.
pub proof fn lemma_lex_cmp_equal_iff(a: Seq<char>, b: Seq<char>)
    ensures
        lex_cmp(a, b) == Ordering::Equal <==> a == b,
    decreases a.len(),
{
    if a.len() == 0 && b.len() == 0 {
        assert(a =~= b);
    } else if a.len() == 0 || b.len() == 0 {
    } else if (a[0] as int) < (b[0] as int) || (b[0] as int) < (a[0] as int) {
        assert(a[0] != b[0]);
    } else {
        assert(a[0] == b[0]);
        lemma_lex_cmp_equal_iff(a.drop_first(), b.drop_first());
        if lex_cmp(a, b) == Ordering::Equal {
            assert(a =~= seq![a[0]] + a.drop_first());
            assert(b =~= seq![b[0]] + b.drop_first());
        }
        if a == b {
            assert(a.drop_first() =~= b.drop_first());
        }
    }
}

/// Swapping the arguments swaps `Less` and `Greater`.
pub proof fn lemma_lex_cmp_flip(a: Seq<char>, b: Seq<char>)
    ensures
        lex_cmp(a, b) == Ordering::Less <==> lex_cmp(b, a) == Ordering::Greater,
    decreases a.len(),
{
    if a.len() != 0 && b.len() != 0 && a[0] == b[0] {
        lemma_lex_cmp_flip(a.drop_first(), b.drop_first());
    }
}

/// `Less` chains through `Less`.
pub proof fn lemma_lex_cmp_trans_less(a: Seq<char>, b: Seq<char>, c: Seq<char>)
    requires
        lex_cmp(a, b) == Ordering::Less,
        lex_cmp(b, c) == Ordering::Less,
    ensures
        lex_cmp(a, c) == Ordering::Less,
    decreases a.len(),
{
    if a.len() == 0 {
        if c.len() == 0 {
            lemma_lex_cmp_equal_iff(b, c);
        }
    } else {
        if a[0] == b[0] && b[0] == c[0] {
            lemma_lex_cmp_trans_less(a.drop_first(), b.drop_first(), c.drop_first());
        }
    }
}

/// `lex_leq` is transitive.
pub proof fn lemma_lex_leq_trans(a: Seq<char>, b: Seq<char>, c: Seq<char>)
    requires
        lex_leq(a, b),
        lex_leq(b, c),
    ensures
        lex_leq(a, c),
{
    lemma_lex_cmp_equal_iff(a, b);
    lemma_lex_cmp_equal_iff(b, c);
    lemma_lex_cmp_flip(a, b);
    lemma_lex_cmp_flip(b, c);
    lemma_lex_cmp_flip(a, c);
    if lex_cmp(a, b) == Ordering::Less && lex_cmp(b, c) == Ordering::Less {
        lemma_lex_cmp_trans_less(a, b, c);
    }
}

/// Any two character sequences are comparable.
pub proof fn lemma_lex_leq_connected(a: Seq<char>, b: Seq<char>)
    ensures
        lex_leq(a, b) || lex_leq(b, a),
        lex_cmp(a, b) == Ordering::Less <==> !lex_leq(b, a),
{
    lemma_lex_cmp_flip(a, b);
    lemma_lex_cmp_flip(b, a);
    lemma_lex_cmp_equal_iff(a, b);
    lemma_lex_cmp_equal_iff(b, a);
}

/// Dropping an equal prefix does not change the comparison.
proof fn lemma_lex_cmp_skip(a: Seq<char>, b: Seq<char>, i: int)
    requires
        0 <= i <= a.len(),
        0 <= i <= b.len(),
        forall|j: int| 0 <= j < i ==> a[j] == b[j],
    ensures
        lex_cmp(a, b) == lex_cmp(a.skip(i), b.skip(i)),
    decreases i,
{
    if i > 0 {
        assert(a.len() > 0 && b.len() > 0 && a[0] == b[0]);
        assert(lex_cmp(a, b) == lex_cmp(a.drop_first(), b.drop_first()));
        lemma_lex_cmp_skip(a.drop_first(), b.drop_first(), i - 1);
        assert(a.drop_first().skip(i - 1) =~= a.skip(i));
        assert(b.drop_first().skip(i - 1) =~= b.skip(i));
    } else {
        assert(a.skip(0) =~= a);
        assert(b.skip(0) =~= b);
    }
}

/// Three-way comparison of two string slices in lexicographic order of their
/// character sequences.
pub fn str_compare(a: &str, b: &str) -> (o: Ordering)
    ensures
        o == lex_cmp(a@, b@),
{
    let a_len = a.unicode_len();
    let b_len = b.unicode_len();
    let mut i: usize = 0;
    loop
        invariant
            a_len == a@.len(),
            b_len == b@.len(),
            i <= a_len,
            i <= b_len,
            forall|j: int| 0 <= j < i ==> a@[j] == b@[j],
        decreases a_len - i,
    {
        proof {
            lemma_lex_cmp_skip(a@, b@, i as int);
        }
        if i == a_len && i == b_len {
            return Ordering::Equal;
        }
        if i == a_len {
            return Ordering::Less;
        }
        if i == b_len {
            return Ordering::Greater;
        }
        let ca = a.get_char(i);
        let cb = b.get_char(i);
        proof {
            assert(a@.skip(i as int)[0] == a@[i as int]);
            assert(b@.skip(i as int)[0] == b@[i as int]);
        }
        if (ca as u32) < (cb as u32) {
            return Ordering::Less;
        }
        if (cb as u32) < (ca as u32) {
            return Ordering::Greater;
        }
        assert(ca == cb);
        i = i + 1;
    }
}

/// Equality of two string slices, decided by their character sequences.
pub fn str_eq(a: &str, b: &str) -> (r: bool)
    ensures
        r == (a@ == b@),
{
    let o = str_compare(a, b);
    proof {
        lemma_lex_cmp_equal_iff(a@, b@);
    }
    match o {
        Ordering::Equal => true,
        _ => false,
    }
}


} // verus!
