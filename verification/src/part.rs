//! Scalar filter predicates over part rows.
//!
//! A part row carries a brand, a container name and a size; the three public
//! filters test it against three fixed brand/size/container combinations.
//! Each is an exact conjunction: brand equality, a closed size range, and
//! membership of the container in a list of four names.

use vstd::prelude::*;
use crate::order::str_eq;

verus! {

/// One row of the part table, as the filters read it.
pub struct Part {
    pub p_partkey: i64,
    pub p_brand: String,
    pub p_container: String,
    pub p_size: i32,
}

impl Part {
    /// The shared shape of the three filters: brand equality, a closed size
    /// range, and membership of the container in a fixed list.
    fn filter(
        brand_pred: &str,
        brand_val: &str,
        size_between: &(i32, i32),
        size_val: &i32,
        container_list: &[&str],
        container_val: &str,
    ) -> (r: bool)
        ensures
            r == {
                &&& brand_pred@ == brand_val@
                &&& size_between.0 <= *size_val <= size_between.1
                &&& exists|i: int|
                    0 <= i < container_list@.len() && (#[trigger] container_list@[i])@
                        == container_val@
            },
    {
        if !str_eq(brand_pred, brand_val) {
            return false;
        }
        if !(size_between.0 <= *size_val && *size_val <= size_between.1) {
            return false;
        }
        let mut i: usize = 0;
        while i < container_list.len()
            invariant
                i <= container_list@.len(),
                brand_pred@ == brand_val@,
                size_between.0 <= *size_val <= size_between.1,
                forall|j: int|
                    0 <= j < i ==> (#[trigger] container_list@[j])@ != container_val@,
            decreases container_list@.len() - i,
        {
            if str_eq(container_list[i], container_val) {
                proof {
                    assert((container_list@[i as int])@ == container_val@);
                }
                return true;
            }
            i = i + 1;
        }
        false
    }

    /// Brand 12: small containers, sizes 1 through 5.
    pub fn filter_1(brand_val: &str, size_val: &i32, container_val: &str) -> (r: bool)
        ensures
            r == {
                &&& brand_val@ == "Brand#12"@
                &&& 1 <= *size_val <= 5
                &&& (container_val@ == "SM CASE"@ || container_val@ == "SM BOX"@
                    || container_val@ == "SM PACK"@ || container_val@ == "SM PKG"@)
            },
    {
        let containers: [&str; 4] = ["SM CASE", "SM BOX", "SM PACK", "SM PKG"];
        let r = Part::filter("Brand#12", brand_val, &(1, 5), size_val, &containers, container_val);
        proof {
            assert(containers@[0] == "SM CASE");
            assert(containers@[1] == "SM BOX");
            assert(containers@[2] == "SM PACK");
            assert(containers@[3] == "SM PKG");
        }
        r
    }

    /// Brand 23: medium containers, sizes 1 through 10.
    pub fn filter_2(brand_val: &str, size_val: &i32, container_val: &str) -> (r: bool)
        ensures
            r == {
                &&& brand_val@ == "Brand#23"@
                &&& 1 <= *size_val <= 10
                &&& (container_val@ == "MED BAG"@ || container_val@ == "MED BOX"@
                    || container_val@ == "MED PKG"@ || container_val@ == "MED PACK"@)
            },
    {
        let containers: [&str; 4] = ["MED BAG", "MED BOX", "MED PKG", "MED PACK"];
        let r = Part::filter("Brand#23", brand_val, &(1, 10), size_val, &containers, container_val);
        proof {
            assert(containers@[0] == "MED BAG");
            assert(containers@[1] == "MED BOX");
            assert(containers@[2] == "MED PKG");
            assert(containers@[3] == "MED PACK");
        }
        r
    }

    /// Brand 34: large containers, sizes 1 through 15.
    pub fn filter_3(brand_val: &str, size_val: &i32, container_val: &str) -> (r: bool)
        ensures
            r == {
                &&& brand_val@ == "Brand#34"@
                &&& 1 <= *size_val <= 15
                &&& (container_val@ == "LG CASE"@ || container_val@ == "LG BOX"@
                    || container_val@ == "LG PACK"@ || container_val@ == "LG PKG"@)
            },
    {
        let containers: [&str; 4] = ["LG CASE", "LG BOX", "LG PACK", "LG PKG"];
        let r = Part::filter("Brand#34", brand_val, &(1, 15), size_val, &containers, container_val);
        proof {
            assert(containers@[0] == "LG CASE");
            assert(containers@[1] == "LG BOX");
            assert(containers@[2] == "LG PACK");
            assert(containers@[3] == "LG PKG");
        }
        r
    }
}

} // verus!
