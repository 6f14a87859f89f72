//! Tests for the query functions.

use lodash_rs::collection::Collection;
use lodash_rs::collection::query::count_by;
use lodash_rs::collection::query::every;
use lodash_rs::collection::query::find;
use lodash_rs::collection::query::find_last;
use lodash_rs::collection::query::includes;
use lodash_rs::collection::query::partition;
use lodash_rs::collection::query::some;

#[test]
fn test_find() {
    let numbers = vec![1, 2, 3, 4, 5];
    let first_even = find(&numbers, |x| x % 2 == 0);
    assert_eq!(first_even, Some(&2));

    let not_found = find(&numbers, |x| *x > 10);
    assert_eq!(not_found, None);
}

#[test]
fn test_find_last() {
    let numbers = vec![1, 2, 3, 4, 5];
    let last_even = find_last(&numbers, |x| x % 2 == 0);
    assert_eq!(last_even, Some(&4));
}

#[test]
fn test_includes() {
    let numbers = vec![1, 2, 3, 4, 5];
    assert!(includes(&numbers, &3));
    assert!(!includes(&numbers, &6));
}

#[test]
fn test_every() {
    let numbers = vec![2, 4, 6, 8];
    assert!(every(&numbers, |x| x % 2 == 0));

    let mixed = vec![2, 4, 5, 8];
    assert!(!every(&mixed, |x| x % 2 == 0));
}

#[test]
fn test_some() {
    let numbers = vec![1, 2, 3, 4, 5];
    assert!(some(&numbers, |x| x % 2 == 0));

    let odds = vec![1, 3, 5, 7];
    assert!(!some(&odds, |x| x % 2 == 0));
}

#[test]
fn test_count_by() {
    let numbers = vec![6.1, 4.2, 6.3];
    let counts = count_by(&numbers, |x| (*x as f64).floor() as i32);
    assert_eq!(counts.get(&6), Some(&2));
    assert_eq!(counts.get(&4), Some(&1));
}

#[test]
fn test_partition() {
    let numbers = vec![1, 2, 3, 4, 5];
    let (evens, odds) = partition(&numbers, |x| x % 2 == 0);
    assert_eq!(evens, vec![2, 4]);
    assert_eq!(odds, vec![1, 3, 5]);
}

#[test]
fn test_collection_find() {
    let collection = Collection::new(vec![1, 2, 3, 4, 5]);
    let first_even = collection.find(|x| x % 2 == 0);
    assert_eq!(first_even, Some(&2));
}

#[test]
fn test_collection_find_last() {
    let collection = Collection::new(vec![1, 2, 3, 4, 5]);
    let last_even = collection.find_last(|x| x % 2 == 0);
    assert_eq!(last_even, Some(&4));
}

#[test]
fn test_collection_includes() {
    let collection = Collection::new(vec![1, 2, 3, 4, 5]);
    assert!(collection.includes(&3));
    assert!(!collection.includes(&6));
}

#[test]
fn test_collection_every() {
    let collection = Collection::new(vec![2, 4, 6, 8]);
    assert!(collection.every(|x| x % 2 == 0));
}

#[test]
fn test_collection_some() {
    let collection = Collection::new(vec![1, 2, 3, 4, 5]);
    assert!(collection.some(|x| x % 2 == 0));

    let odds_collection = Collection::new(vec![1, 3, 5, 7]);
    assert!(!odds_collection.some(|x| x % 2 == 0));
}

#[test]
fn test_collection_count_by() {
    let collection = Collection::new(vec![6.1, 4.2, 6.3]);
    let counts = collection.count_by(|x| (*x as f64).floor() as i32);
    assert_eq!(counts.get(&6), Some(&2));
}

#[test]
fn test_collection_partition() {
    let collection = Collection::new(vec![1, 2, 3, 4, 5]);
    let (evens, odds) = collection.partition(|x| x % 2 == 0);
    assert_eq!(evens, vec![2, 4]);
    assert_eq!(odds, vec![1, 3, 5]);
}

#[test]
fn query_test_empty_collection() {
    let empty: Vec<i32> = vec![];
    assert_eq!(find(&empty, |x| x % 2 == 0), None);
    assert!(every(&empty, |x| x % 2 == 0));
    assert!(!some(&empty, |x| x % 2 == 0));
    assert!(!includes(&empty, &1));
}
