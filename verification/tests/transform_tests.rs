//! Tests for the reorganising transforms.

use lodash_rs::collection::Collection;
use lodash_rs::collection::transform::group_by;
use lodash_rs::collection::transform::invoke;
use lodash_rs::collection::transform::key_by;
use lodash_rs::collection::transform::order_by;
use lodash_rs::collection::transform::sort_by;

#[test]
fn test_group_by() {
    let numbers = vec![6.1, 4.2, 6.3];
    let grouped = group_by(&numbers, |x| (*x as f64).floor() as i32);
    assert_eq!(grouped.get(&6), Some(&vec![6.1, 6.3]));
    assert_eq!(grouped.get(&4), Some(&vec![4.2]));
}

#[test]
fn test_key_by() {
    let users = vec![("john", 30), ("jane", 25), ("bob", 35)];
    let keyed = key_by(&users, |(name, _)| name.to_string());
    assert_eq!(keyed.get("john"), Some(&("john", 30)));
    assert_eq!(keyed.get("jane"), Some(&("jane", 25)));
    assert_eq!(keyed.get("bob"), Some(&("bob", 35)));
}

#[test]
fn test_invoke() {
    let strings = vec!["hello", "world"];
    let uppercased = invoke(&strings, |s| s.to_uppercase());
    assert_eq!(uppercased, vec!["HELLO", "WORLD"]);
}

#[test]
fn test_sort_by() {
    let users = vec![("john", 30), ("jane", 25), ("bob", 35)];
    let sorted = sort_by(&users, |(_, age)| *age);
    assert_eq!(sorted[0], ("jane", 25));
    assert_eq!(sorted[1], ("john", 30));
    assert_eq!(sorted[2], ("bob", 35));
}

#[test]
fn test_order_by_ascending() {
    let users = vec![("john", 30), ("jane", 25), ("bob", 35)];
    let sorted = order_by(&users, |(_, age)| *age, true);
    assert_eq!(sorted[0], ("jane", 25));
    assert_eq!(sorted[1], ("john", 30));
    assert_eq!(sorted[2], ("bob", 35));
}

#[test]
fn test_order_by_descending() {
    let users = vec![("john", 30), ("jane", 25), ("bob", 35)];
    let sorted = order_by(&users, |(_, age)| *age, false);
    assert_eq!(sorted[0], ("bob", 35));
    assert_eq!(sorted[1], ("john", 30));
    assert_eq!(sorted[2], ("jane", 25));
}

#[test]
fn test_sort_by_is_stable() {
    let users = vec![("john", 30), ("jane", 25), ("bob", 30)];
    let sorted = sort_by(&users, |(_, age)| *age);
    assert_eq!(sorted, vec![("jane", 25), ("john", 30), ("bob", 30)]);
}

#[test]
fn test_order_by_descending_is_stable() {
    let users = vec![("john", 30), ("jane", 25), ("bob", 30)];
    let sorted = order_by(&users, |(_, age)| *age, false);
    assert_eq!(sorted, vec![("john", 30), ("bob", 30), ("jane", 25)]);
}

#[test]
fn test_collection_group_by() {
    let collection = Collection::new(vec![6.1, 4.2, 6.3]);
    let grouped = collection.group_by(|x| (*x as f64).floor() as i32);
    assert_eq!(grouped.get(&6), Some(&vec![6.1, 6.3]));
}

#[test]
fn test_collection_key_by() {
    let collection = Collection::new(vec![("john", 30), ("jane", 25), ("bob", 35)]);
    let keyed = collection.key_by(|(name, _)| name.to_string());
    assert_eq!(keyed.get("john"), Some(&("john", 30)));
}

#[test]
fn test_collection_invoke() {
    let collection = Collection::new(vec!["hello", "world"]);
    let uppercased = collection.invoke(|s| s.to_uppercase());
    assert_eq!(uppercased, vec!["HELLO", "WORLD"]);
}

#[test]
fn test_collection_sort_by() {
    let collection = Collection::new(vec![("john", 30), ("jane", 25), ("bob", 35)]);
    let sorted = collection.sort_by(|(_, age)| *age);
    assert_eq!(sorted[0], ("jane", 25));
}

#[test]
fn test_collection_order_by() {
    let collection = Collection::new(vec![("john", 30), ("jane", 25), ("bob", 35)]);
    let sorted = collection.order_by(|(_, age)| *age, false);
    assert_eq!(sorted[0], ("bob", 35));
}

#[test]
fn transform_test_empty_collection() {
    let empty: Vec<i32> = vec![];
    let grouped = group_by(&empty, |x| x % 2);
    assert!(grouped.is_empty());

    let keyed = key_by(&empty, |x| x.to_string());
    assert!(keyed.is_empty());

    let invoked = invoke(&empty, |x| x * 2);
    assert!(invoked.is_empty());

    let sorted = sort_by(&empty, |x| *x);
    assert!(sorted.is_empty());
}
