use byname::generator::{decimal_string, generate_customers};
use byname::merge::{merge_sorted, sort_stable};
use byname::order::{str_compare, str_eq};
use byname::part::Part;
use byname::record::{matches_group, tag_customer, Customer};
use core::cmp::Ordering;

fn cust(id: i32, d: i32, w: i32, first: &str, last: &str) -> Customer {
    Customer {
        c_id: id,
        c_d_id: d,
        c_w_id: w,
        c_first: first.to_string(),
        c_middle: String::new(),
        c_last: last.to_string(),
        c_street_1: None,
        c_street_2: None,
        c_city: None,
        c_state: None,
        c_zip: None,
        c_phone: None,
        c_credit: None,
        c_since: None,
    }
}

#[test]
fn test_merge_sorted() {
    let a = vec![1, 3, 5, 7, 9];
    let b = vec![2, 4, 6, 8, 10];
    let result = merge_sorted(a, b);
    assert_eq!(result, vec![1, 2, 3, 4, 5, 6, 7, 8, 9, 10]);
}

#[test]
fn merge_sorted_uneven_and_empty() {
    let a: Vec<i32> = vec![4, 5, 6];
    let b: Vec<i32> = vec![1];
    assert_eq!(merge_sorted(a, b), vec![1, 4, 5, 6]);
    let a: Vec<i32> = Vec::new();
    let b = vec![2, 3];
    assert_eq!(merge_sorted(a, b), vec![2, 3]);
    let a = vec![2, 3];
    let b: Vec<i32> = Vec::new();
    assert_eq!(merge_sorted(a, b), vec![2, 3]);
}

#[test]
fn merge_sorted_strings() {
    let a = vec!["apple", "cherry"];
    let b = vec!["banana", "cherry", "date"];
    assert_eq!(
        merge_sorted(a, b),
        vec!["apple", "banana", "cherry", "cherry", "date"]
    );
}

#[test]
fn sort_stable_orders_values() {
    let v = vec![9, 2, 7, 2, 0, 7];
    assert_eq!(sort_stable(v), vec![0, 2, 2, 7, 7, 9]);
    let empty: Vec<i32> = Vec::new();
    assert_eq!(sort_stable(empty), Vec::<i32>::new());
}

#[test]
fn str_compare_orders_lexicographically() {
    assert_eq!(str_compare("abc", "abd"), Ordering::Less);
    assert_eq!(str_compare("abc", "abc"), Ordering::Equal);
    assert_eq!(str_compare("b", "ab"), Ordering::Greater);
    assert_eq!(str_compare("ab", "abc"), Ordering::Less);
    assert_eq!(str_compare("", "a"), Ordering::Less);
    assert_eq!(str_compare("", ""), Ordering::Equal);
    // Numerals compare as text, not as numbers.
    assert_eq!(str_compare("10", "2"), Ordering::Less);
}

#[test]
fn str_eq_decides_equality() {
    assert!(str_eq("", ""));
    assert!(str_eq("same", "same"));
    assert!(!str_eq("same", "sane"));
    assert!(!str_eq("same", "sam"));
}

#[test]
fn decimal_string_exact() {
    assert_eq!(decimal_string(0), "0");
    assert_eq!(decimal_string(7), "7");
    assert_eq!(decimal_string(10), "10");
    assert_eq!(decimal_string(1234), "1234");
    assert_eq!(decimal_string(4294967295), "4294967295");
}

#[test]
fn matches_group_is_exact_conjunction() {
    let c = cust(1, 43, 44, "first", "lastname");
    assert!(matches_group(&c, "lastname", 43, 44));
    assert!(!matches_group(&c, "othername", 43, 44));
    assert!(!matches_group(&c, "lastname", 42, 44));
    assert!(!matches_group(&c, "lastname", 43, 45));
}

#[test]
fn tag_customer_sums_identity_and_group() {
    let t = tag_customer(cust(10, 43, 44, "x", "lastname"));
    assert_eq!(t.sum_key, 97);
    assert_eq!(t.customer.c_id, 10);
}

#[test]
fn generate_customers_content() {
    let (base, updates, dels, params) = generate_customers(5, 2, 1);
    let base_ids: Vec<i32> = base.iter().map(|c| c.c_id).collect();
    assert_eq!(base_ids, vec![4, 3, 2, 1, 0]);
    let base_firsts: Vec<&str> = base.iter().map(|c| c.c_first.as_str()).collect();
    assert_eq!(base_firsts, vec!["4", "3", "2", "1", "0"]);
    for c in base.iter().chain(updates.iter()) {
        assert_eq!(c.c_d_id, 43);
        assert_eq!(c.c_w_id, 44);
        assert_eq!(c.c_last, "lastname");
        assert_eq!(c.c_middle, "");
        assert!(c.c_street_1.is_none());
        assert!(c.c_since.is_none());
    }
    let update_ids: Vec<i32> = updates.iter().map(|c| c.c_id).collect();
    assert_eq!(update_ids, vec![6, 5]);
    // The single deletion copies base[5 / 2] = base[2].
    assert_eq!(dels.len(), 1);
    assert_eq!(dels[0].c_id, 2);
    assert_eq!(dels[0].c_first, "2");
    assert_eq!(params.0, Some(1));
    assert_eq!(params.1, Some(44));
    assert_eq!(params.2, Some(43));
    assert_eq!(params.3.as_deref(), Some("lastname"));
}

#[test]
fn generate_customers_deletions_slice() {
    let (base, _updates, dels, _params) = generate_customers(10, 3, 2);
    let del_ids: Vec<i32> = dels.iter().map(|c| c.c_id).collect();
    let expected: Vec<i32> = base[5..7].iter().map(|c| c.c_id).collect();
    assert_eq!(del_ids, expected);
    assert_eq!(del_ids, vec![4, 3]);
}

#[test]
fn part_filter_1_exact() {
    assert!(Part::filter_1("Brand#12", &3, "SM BOX"));
    assert!(Part::filter_1("Brand#12", &1, "SM CASE"));
    assert!(Part::filter_1("Brand#12", &5, "SM PKG"));
    assert!(!Part::filter_1("Brand#13", &3, "SM BOX"));
    assert!(!Part::filter_1("Brand#12", &0, "SM BOX"));
    assert!(!Part::filter_1("Brand#12", &6, "SM BOX"));
    assert!(!Part::filter_1("Brand#12", &3, "LG BOX"));
}

#[test]
fn part_filter_2_exact() {
    assert!(Part::filter_2("Brand#23", &10, "MED BAG"));
    assert!(Part::filter_2("Brand#23", &1, "MED PACK"));
    assert!(!Part::filter_2("Brand#23", &11, "MED BAG"));
    assert!(!Part::filter_2("Brand#12", &5, "MED BAG"));
    assert!(!Part::filter_2("Brand#23", &5, "SM BOX"));
}

#[test]
fn part_filter_3_exact() {
    assert!(Part::filter_3("Brand#34", &15, "LG PKG"));
    assert!(Part::filter_3("Brand#34", &1, "LG CASE"));
    assert!(!Part::filter_3("Brand#34", &16, "LG PKG"));
    assert!(!Part::filter_3("Brand#34", &15, "MED PKG"));
    assert!(!Part::filter_3("Brand#33", &15, "LG PKG"));
}

#[test]
fn part_rows_carry_their_fields() {
    let p = Part {
        p_partkey: 7,
        p_brand: "Brand#12".to_string(),
        p_container: "SM BOX".to_string(),
        p_size: 3,
    };
    assert!(Part::filter_1(&p.p_brand, &p.p_size, &p.p_container));
    assert_eq!(p.p_partkey, 7);
}
