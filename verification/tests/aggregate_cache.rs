//! Named aggregates, the merge, the sort, and the aggregation cache.

use c21logcounter::aggregate::NamedAggregate;
use c21logcounter::aggregate::add_to_table;
use c21logcounter::cache::Statics;
use c21logcounter::utils::connect_hashmap;
use c21logcounter::utils::hashmap_to_vec;
use c21logcounter::utils::sort;
use c21logcounter::utils::SortTarget;

fn table(entries: &[(&str, i64)]) -> NamedAggregate {
    let mut t = NamedAggregate::new();
    for (name, qty) in entries {
        add_to_table(&mut t, name, *qty);
    }
    t
}

#[test]
fn add_to_table_accumulates() {
    let t = table(&[("apple", 2), ("pear", 1), ("apple", 5)]);
    assert_eq!(t.get("apple"), Some(7));
    assert_eq!(t.get("pear"), Some(1));
    assert_eq!(t.get("plum"), None);
    assert_eq!(t.len(), 2);
}

#[test]
fn add_to_table_saturates_at_bounds() {
    let t = table(&[("apple", i64::MAX), ("apple", 1)]);
    assert_eq!(t.get("apple"), Some(i64::MAX));
    let u = table(&[("debt", i64::MIN), ("debt", -1)]);
    assert_eq!(u.get("debt"), Some(i64::MIN));
}

#[test]
fn merge_is_commutative() {
    let a = table(&[("apple", 2), ("pear", 1)]);
    let b = table(&[("apple", 3), ("plum", 4)]);
    let ab = connect_hashmap(
        connect_hashmap(NamedAggregate::new(), a),
        table(&[("apple", 3), ("plum", 4)]),
    );
    let ba = connect_hashmap(
        connect_hashmap(NamedAggregate::new(), b),
        table(&[("apple", 2), ("pear", 1)]),
    );
    for key in ["apple", "pear", "plum", "absent"] {
        assert_eq!(ab.get(key), ba.get(key));
    }
    assert_eq!(ab.get("apple"), Some(5));
    assert_eq!(ab.get("pear"), Some(1));
    assert_eq!(ab.get("plum"), Some(4));
}

#[test]
fn cache_filter_is_idempotent_per_id() {
    let mut cache = Statics::new();
    let first = cache.query_cache(&["log1.txt".to_string()]);
    assert_eq!(first, vec!["log1.txt".to_string()]);
    let second = cache.query_cache(&["log1.txt".to_string()]);
    assert_eq!(second, Vec::<String>::new());
}

#[test]
fn cache_filter_keeps_input_order_and_marks() {
    let mut cache = Statics::new();
    let batch = vec![
        "b.txt".to_string(),
        "a.txt".to_string(),
        "b.txt".to_string(),
        "c.txt".to_string(),
    ];
    let fresh = cache.query_cache(&batch);
    assert_eq!(
        fresh,
        vec!["b.txt".to_string(), "a.txt".to_string(), "c.txt".to_string()]
    );
    let again = cache.query_cache(&["a.txt".to_string(), "d.txt".to_string()]);
    assert_eq!(again, vec!["d.txt".to_string()]);
}

#[test]
fn cache_accumulates_and_blanks() {
    let mut cache = Statics::new();
    cache.update_statics(table(&[("apple", 2)]));
    cache.update_statics(table(&[("apple", 3), ("pear", 1)]));
    let snapshot = cache.get_statics();
    assert_eq!(snapshot.get("apple"), Some(5));
    assert_eq!(snapshot.get("pear"), Some(1));
    cache.blank();
    assert_eq!(cache.get_statics().len(), 0);
    cache.rewrite_statics(table(&[("plum", 9)]));
    assert_eq!(cache.get_statics().get("plum"), Some(9));
    cache.set_last(42);
    assert_eq!(cache.get_last(), 42);
}

#[test]
fn sort_by_quantity_ascending_and_descending() {
    let t = table(&[("apple", 2), ("pear", 7), ("plum", 4)]);
    let mut v = hashmap_to_vec(&t);
    sort(&mut v, SortTarget::QTY, false);
    let counts: Vec<i64> = v.iter().map(|e| e.1).collect();
    assert_eq!(counts, vec![2, 4, 7]);
    sort(&mut v, SortTarget::QTY, true);
    let counts: Vec<i64> = v.iter().map(|e| e.1).collect();
    assert_eq!(counts, vec![7, 4, 2]);
}

#[test]
fn sort_by_name_orders_lexicographically() {
    let t = table(&[("pear", 1), ("apple", 2), ("plum", 3)]);
    let mut v = hashmap_to_vec(&t);
    sort(&mut v, SortTarget::NAME, false);
    let names: Vec<String> = v.iter().map(|e| e.0.clone()).collect();
    assert_eq!(names, vec!["apple", "pear", "plum"]);
    sort(&mut v, SortTarget::NAME, true);
    let names: Vec<String> = v.iter().map(|e| e.0.clone()).collect();
    assert_eq!(names, vec!["plum", "pear", "apple"]);
}

#[test]
fn hashmap_to_vec_lists_every_entry() {
    let t = table(&[("apple", 2), ("pear", 7)]);
    let v = hashmap_to_vec(&t);
    assert_eq!(v.len(), 2);
    assert!(v.contains(&("apple".to_string(), 2)));
    assert!(v.contains(&("pear".to_string(), 7)));
}
