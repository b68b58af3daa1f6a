//! Deterministic batch generation for testing and benchmarking.
//!
//! The generator produces a base batch, an update batch and a deletion batch
//! with fully pinned-down content: identities and first names are built from
//! reversed integer ranges (so the batches arrive unsorted by first name),
//! every record carries one synthetic group key, and the deletions are copies
//! of the median-adjacent slice of the base batch.  The same sizes always
//! produce the same records.

use vstd::prelude::*;
use vstd::string::StringExecFns;
use crate::record::Customer;

verus! {

/// The character of one decimal digit.
pub open spec fn digit_char(d: nat) -> char
    recommends
        d < 10,
{
    ((d + 48) as u8) as char
}

/// The decimal numeral of a natural number, most significant digit first.
pub open spec fn decimal_chars(n: nat) -> Seq<char>
    decreases n,
{
    if n < 10 {
        seq![digit_char(n)]
    } else {
        decimal_chars(n / 10).push(digit_char(n % 10))
    }
}

/// One decimal digit as a string slice.
fn digit_str(d: u32) -> (s: &'static str)
    requires
        d < 10,
    ensures
        s@ == seq![digit_char(d as nat)],
{
    proof {
        reveal_strlit("0");
        reveal_strlit("1");
        reveal_strlit("2");
        reveal_strlit("3");
        reveal_strlit("4");
        reveal_strlit("5");
        reveal_strlit("6");
        reveal_strlit("7");
        reveal_strlit("8");
        reveal_strlit("9");
    }
    match d {
        0 => "0",
        1 => "1",
        2 => "2",
        3 => "3",
        4 => "4",
        5 => "5",
        6 => "6",
        7 => "7",
        8 => "8",
        _ => "9",
    }
}

/// The decimal numeral of `n`, as the digits of `decimal_chars`.
pub fn decimal_string(n: u32) -> (s: String)
    ensures
        s@ == decimal_chars(n as nat),
    decreases n,
{
    if n < 10 {
        String::from_str(digit_str(n))
    } else {
        let mut s = decimal_string(n / 10);
        let ghost s0 = s@;
        s.append(digit_str(n % 10));
        proof {
            assert(s@ =~= s0.push(digit_char((n % 10) as nat)));
        }
        s
    }
}

/// What a base-batch record at position `k` looks like, for base size `b`:
/// identities and first names descend as `k` grows, the group key is the one
/// synthetic group, and the payload is empty.
pub open spec fn generated_base_record(c: Customer, b: int, k: int) -> bool {
    &&& c.c_id == b - 1 - k
    &&& c.c_d_id == 43
    &&& c.c_w_id == 44
    &&& c.c_first@ == decimal_chars((b - 1 - k) as nat)
    &&& c.c_middle@ == Seq::<char>::empty()
    &&& c.c_last@ == "lastname"@
    &&& c.c_street_1 is None
    &&& c.c_street_2 is None
    &&& c.c_city is None
    &&& c.c_state is None
    &&& c.c_zip is None
    &&& c.c_phone is None
    &&& c.c_credit is None
    &&& c.c_since is None
}

/// What an update-batch record at position `k` looks like, for base size `b`
/// and update size `u`: identities continue past the base batch, again in
/// descending order.
pub open spec fn generated_update_record(c: Customer, b: int, u: int, k: int) -> bool {
    &&& c.c_id == b + u - 1 - k
    &&& c.c_d_id == 43
    &&& c.c_w_id == 44
    &&& c.c_first@ == decimal_chars((b + u - 1 - k) as nat)
    &&& c.c_middle@ == Seq::<char>::empty()
    &&& c.c_last@ == "lastname"@
    &&& c.c_street_1 is None
    &&& c.c_street_2 is None
    &&& c.c_city is None
    &&& c.c_state is None
    &&& c.c_zip is None
    &&& c.c_phone is None
    &&& c.c_credit is None
    &&& c.c_since is None
}

/// Build one generated record with the synthetic group key.
fn generated_record(id: i32) -> (c: Customer)
    requires
        0 <= id,
    ensures
        c.c_id == id,
        c.c_d_id == 43,
        c.c_w_id == 44,
        c.c_first@ == decimal_chars(id as nat),
        c.c_middle@ == Seq::<char>::empty(),
        c.c_last@ == "lastname"@,
        c.c_street_1 is None,
        c.c_street_2 is None,
        c.c_city is None,
        c.c_state is None,
        c.c_zip is None,
        c.c_phone is None,
        c.c_credit is None,
        c.c_since is None,
{
    proof {
        reveal_strlit("");
    }
    Customer {
        c_id: id,
        c_d_id: 43,
        c_w_id: 44,
        c_first: decimal_string(id as u32),
        c_middle: String::from_str(""),
        c_last: "lastname".to_owned(),
        c_street_1: None,
        c_street_2: None,
        c_city: None,
        c_state: None,
        c_zip: None,
        c_phone: None,
        c_credit: None,
        c_since: None,
    }
}

/// Produce the three batches and the filter parameters.
///
/// The base batch holds `base_size` records with identities
/// `base_size - 1` down to `0`; the update batch holds `update_size` records
/// with identities `base_size + update_size - 1` down to `base_size`; the
/// deletion batch is a copy of the slice of the base batch of length
/// `delete_size` starting at index `base_size / 2`, so deletions target
/// median-adjacent records.  All records share the synthetic group
/// `(43, 44, "lastname")`, and the transaction parameters name that group.
pub fn generate_customers(base_size: i32, update_size: i32, delete_size: i32) -> (r: (
    Vec<Customer>,
    Vec<Customer>,
    Vec<Customer>,
    (Option<i32>, Option<i32>, Option<i32>, Option<String>),
))
    requires
        0 <= base_size,
        0 <= update_size,
        0 <= delete_size,
        base_size + update_size <= i32::MAX,
        base_size / 2 + delete_size <= base_size,
    ensures
        r.0@.len() == base_size,
        forall|k: int|
            0 <= k < base_size ==> generated_base_record(#[trigger] r.0@[k], base_size as int, k),
        r.1@.len() == update_size,
        forall|k: int|
            0 <= k < update_size ==> generated_update_record(
                #[trigger] r.1@[k],
                base_size as int,
                update_size as int,
                k,
            ),
        r.2@.len() == delete_size,
        forall|k: int|
            0 <= k < delete_size ==> (#[trigger] r.2@[k])@ == r.0@[base_size as int / 2 + k]@,
        r.3.0 == Some(1i32),
        r.3.1 == Some(44i32),
        r.3.2 == Some(43i32),
        r.3.3 matches Some(l) && l@ == "lastname"@,
{
    let mut base_vals: Vec<Customer> = Vec::new();
    let mut i: i32 = 0;
    while i < base_size
        invariant
            0 <= i <= base_size,
            base_vals@.len() == i,
            forall|k: int|
                0 <= k < i ==> generated_base_record(#[trigger] base_vals@[k], base_size as int, k),
        decreases base_size - i,
    {
        let c = generated_record(base_size - 1 - i);
        base_vals.push(c);
        i = i + 1;
    }
    let mut update_vals: Vec<Customer> = Vec::new();
    let mut j: i32 = 0;
    while j < update_size
        invariant
            0 <= j <= update_size,
            base_size + update_size <= i32::MAX,
            0 <= base_size,
            update_vals@.len() == j,
            forall|k: int|
                0 <= k < j ==> generated_update_record(
                    #[trigger] update_vals@[k],
                    base_size as int,
                    update_size as int,
                    k,
                ),
        decreases update_size - j,
    {
        let c = generated_record(base_size + (update_size - 1 - j));
        update_vals.push(c);
        j = j + 1;
    }
    // The deletions copy the median-adjacent slice of the base batch.
    let median_index = base_size / 2;
    let mut delete_vals: Vec<Customer> = Vec::new();
    let mut k: i32 = 0;
    while k < delete_size
        invariant
            0 <= k <= delete_size,
            0 <= median_index,
            median_index + delete_size <= base_vals@.len(),
            median_index + delete_size <= i32::MAX,
            delete_vals@.len() == k,
            forall|m: int|
                0 <= m < k ==> (#[trigger] delete_vals@[m])@ == base_vals@[median_index as int
                    + m]@,
        decreases delete_size - k,
    {
        let c = base_vals[(median_index + k) as usize].clone();
        delete_vals.push(c);
        k = k + 1;
    }
    let txn_id: i32 = 1;
    let parameters = (Some(txn_id), Some(44i32), Some(43i32), Some("lastname".to_owned()));
    (base_vals, update_vals, delete_vals, parameters)
}

} // verus!
