//! The customer-like record model.
//!
//! A record carries an identity (`c_id`), a composite group key
//! (`c_d_id`, `c_w_id`, `c_last`), a sort key (`c_first`, ordered
//! lexicographically), and opaque payload fields that the algorithms never
//! read.  A tagged record pairs a record with its sum key, a cheap composite
//! integer used only to match deletions against retained records.

use vstd::prelude::*;
use core::cmp::Ordering;
use crate::order::{lex_cmp, str_compare, str_eq};

verus! {

/// One row of the customer-like collection.  The three `i32` fields and the
/// three string fields drive the algorithms; the `Option` fields are payload,
/// carried but never read.  `c_since` holds a date as a day number.
#[derive(Debug)]
pub struct Customer {
    pub c_id: i32,
    pub c_d_id: i32,
    pub c_w_id: i32,
    pub c_first: String,
    pub c_middle: String,
    pub c_last: String,
    pub c_street_1: Option<String>,
    pub c_street_2: Option<String>,
    pub c_city: Option<String>,
    pub c_state: Option<String>,
    pub c_zip: Option<String>,
    pub c_phone: Option<String>,
    pub c_credit: Option<String>,
    pub c_since: Option<i64>,
}

/// The mathematical image of a `Customer`: integers and character sequences.
pub struct CustomerView {
    pub c_id: int,
    pub c_d_id: int,
    pub c_w_id: int,
    pub c_first: Seq<char>,
    pub c_middle: Seq<char>,
    pub c_last: Seq<char>,
    pub c_street_1: Option<Seq<char>>,
    pub c_street_2: Option<Seq<char>>,
    pub c_city: Option<Seq<char>>,
    pub c_state: Option<Seq<char>>,
    pub c_zip: Option<Seq<char>>,
    pub c_phone: Option<Seq<char>>,
    pub c_credit: Option<Seq<char>>,
    pub c_since: Option<int>,
}

/// View of an optional string as an optional character sequence.
pub open spec fn opt_str_view(o: Option<String>) -> Option<Seq<char>> {
    match o {
        Some(s) => Some(s@),
        None => None,
    }
}

impl View for Customer {
    type V = CustomerView;

    open spec fn view(&self) -> CustomerView {
        CustomerView {
            c_id: self.c_id as int,
            c_d_id: self.c_d_id as int,
            c_w_id: self.c_w_id as int,
            c_first: self.c_first@,
            c_middle: self.c_middle@,
            c_last: self.c_last@,
            c_street_1: opt_str_view(self.c_street_1),
            c_street_2: opt_str_view(self.c_street_2),
            c_city: opt_str_view(self.c_city),
            c_state: opt_str_view(self.c_state),
            c_zip: opt_str_view(self.c_zip),
            c_phone: opt_str_view(self.c_phone),
            c_credit: opt_str_view(self.c_credit),
            c_since: match self.c_since {
                Some(d) => Some(d as int),
                None => None,
            },
        }
    }
}

/// Clone an optional string, preserving its view.
fn clone_opt_string(o: &Option<String>) -> (r: Option<String>)
    ensures
        opt_str_view(r) == opt_str_view(*o),
{
    match o {
        Some(s) => Some(s.clone()),
        None => None,
    }
}

impl Clone for Customer {
    fn clone(&self) -> (r: Self)
        ensures
            r@ == self@,
    {
        Customer {
            c_id: self.c_id,
            c_d_id: self.c_d_id,
            c_w_id: self.c_w_id,
            c_first: self.c_first.clone(),
            c_middle: self.c_middle.clone(),
            c_last: self.c_last.clone(),
            c_street_1: clone_opt_string(&self.c_street_1),
            c_street_2: clone_opt_string(&self.c_street_2),
            c_city: clone_opt_string(&self.c_city),
            c_state: clone_opt_string(&self.c_state),
            c_zip: clone_opt_string(&self.c_zip),
            c_phone: clone_opt_string(&self.c_phone),
            c_credit: clone_opt_string(&self.c_credit),
            c_since: self.c_since,
        }
    }
}

impl PartialEq for Customer {
    /// Records are identified by their `c_id` alone.
    fn eq(&self, other: &Self) -> (r: bool) {
        self.c_id == other.c_id
    }
}

impl vstd::std_specs::cmp::PartialEqSpecImpl for Customer {
    open spec fn obeys_eq_spec() -> bool {
        true
    }

    open spec fn eq_spec(&self, other: &Self) -> bool {
        self.c_id == other.c_id
    }
}

impl PartialOrd for Customer {
    /// Records are ordered by their first-name sort key alone.
    fn partial_cmp(&self, other: &Self) -> (r: Option<Ordering>) {
        Some(str_compare(self.c_first.as_str(), other.c_first.as_str()))
    }
}

impl vstd::std_specs::cmp::PartialOrdSpecImpl for Customer {
    open spec fn obeys_partial_cmp_spec() -> bool {
        true
    }

    open spec fn partial_cmp_spec(&self, other: &Self) -> Option<Ordering> {
        Some(lex_cmp(self.c_first@, other.c_first@))
    }
}

/// The sum key of a record: a composite integer identifying the record for
/// deletion matching.  It is not the sort key.
pub open spec fn sum_key_spec(c: Customer) -> int {
    c.c_id + c.c_d_id + c.c_w_id
}

/// A record tagged with its sum key.
pub struct TaggedCustomer {
    pub sum_key: i64,
    pub customer: Customer,
}

impl Clone for TaggedCustomer {
    fn clone(&self) -> (r: Self)
        ensures
            r.sum_key == self.sum_key,
            r.customer@ == self.customer@,
    {
        TaggedCustomer { sum_key: self.sum_key, customer: self.customer.clone() }
    }
}

impl PartialEq for TaggedCustomer {
    fn eq(&self, other: &Self) -> (r: bool) {
        self.sum_key == other.sum_key && self.customer.c_id == other.customer.c_id
    }
}

impl vstd::std_specs::cmp::PartialEqSpecImpl for TaggedCustomer {
    open spec fn obeys_eq_spec() -> bool {
        true
    }

    open spec fn eq_spec(&self, other: &Self) -> bool {
        self.sum_key == other.sum_key && self.customer.c_id == other.customer.c_id
    }
}

impl PartialOrd for TaggedCustomer {
    /// Tagged records are ordered by the record's sort key; the tag plays no
    /// part in the ordering.
    fn partial_cmp(&self, other: &Self) -> (r: Option<Ordering>) {
        Some(str_compare(self.customer.c_first.as_str(), other.customer.c_first.as_str()))
    }
}

impl vstd::std_specs::cmp::PartialOrdSpecImpl for TaggedCustomer {
    open spec fn obeys_partial_cmp_spec() -> bool {
        true
    }

    open spec fn partial_cmp_spec(&self, other: &Self) -> Option<Ordering> {
        Some(lex_cmp(self.customer.c_first@, other.customer.c_first@))
    }
}

/// Tag a record with its sum key.
pub open spec fn tag_spec(c: Customer) -> TaggedCustomer {
    TaggedCustomer {
        sum_key: (c.c_id + c.c_d_id + c.c_w_id) as i64,
        customer: c,
    }
}

/// Tag a record with its sum key.
pub fn tag_customer(c: Customer) -> (t: TaggedCustomer)
    ensures
        t == tag_spec(c),
        t.sum_key == sum_key_spec(c),
{
    let key: i64 = c.c_id as i64 + c.c_d_id as i64 + c.c_w_id as i64;
    TaggedCustomer { sum_key: key, customer: c }
}

/// The group-membership predicate: an exact equality conjunction on the three
/// group-key fields.
pub open spec fn matches_spec(c: Customer, c_last: Seq<char>, c_d_id: int, c_w_id: int) -> bool {
    &&& c.c_last@ == c_last
    &&& c.c_d_id == c_d_id
    &&& c.c_w_id == c_w_id
}

/// Decide whether a record belongs to the group named by the three
/// parameters.
pub fn matches_group(c: &Customer, c_last: &str, c_d_id: i32, c_w_id: i32) -> (r: bool)
    ensures
        r == matches_spec(*c, c_last@, c_d_id as int, c_w_id as int),
{
    str_eq(c.c_last.as_str(), c_last) && c.c_d_id == c_d_id && c.c_w_id == c_w_id
}



} // verus!
