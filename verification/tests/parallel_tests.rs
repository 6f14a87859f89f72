//! Tests for the parallel operation variants.

use std::sync::Mutex;

use lodash_rs::collection::Collection;
use lodash_rs::extensions::parallel::every_parallel;
use lodash_rs::extensions::parallel::filter_parallel;
use lodash_rs::extensions::parallel::find_parallel;
use lodash_rs::extensions::parallel::for_each_parallel;
use lodash_rs::extensions::parallel::map_parallel;
use lodash_rs::extensions::parallel::reduce_parallel;
use lodash_rs::extensions::parallel::some_parallel;

#[test]
fn test_map_parallel() {
    let numbers = vec![1, 2, 3, 4, 5];
    let doubled = map_parallel(&numbers, |x| x * 2);
    assert_eq!(doubled, vec![2, 4, 6, 8, 10]);
}

#[test]
fn test_filter_parallel() {
    let numbers = vec![1, 2, 3, 4, 5];
    let evens = filter_parallel(&numbers, |x| x % 2 == 0);
    assert_eq!(evens, vec![2, 4]);
}

#[test]
fn test_reduce_parallel() {
    let numbers = vec![1, 2, 3, 4, 5];
    let sum = reduce_parallel(&numbers, |acc, x| acc + x, 0);
    assert_eq!(sum, 15);
}

#[test]
fn test_for_each_parallel() {
    let numbers = vec![1, 2, 3, 4, 5];
    let sum = Mutex::new(0);
    for_each_parallel(&numbers, |x| {
        let mut guard = sum.lock().unwrap();
        *guard += *x;
    });
    assert_eq!(*sum.lock().unwrap(), 15);
}

#[test]
fn test_find_parallel() {
    let numbers = vec![1, 2, 3, 4, 5];
    let found = find_parallel(&numbers, |x| x % 2 == 0);
    assert!(found.is_some());
    assert!(found.unwrap() % 2 == 0);
}

#[test]
fn test_every_parallel() {
    let numbers = vec![2, 4, 6, 8];
    assert!(every_parallel(&numbers, |x| x % 2 == 0));
    assert!(!every_parallel(&numbers, |x| *x > 4));
}

#[test]
fn test_some_parallel() {
    let numbers = vec![1, 2, 3, 4, 5];
    assert!(some_parallel(&numbers, |x| x % 2 == 0));
    assert!(!some_parallel(&numbers, |x| *x > 10));
}

#[test]
fn test_collection_map_parallel() {
    let collection = Collection::new(vec![1, 2, 3, 4, 5]);
    let doubled = collection.map_parallel(|x| x * 2);
    assert_eq!(doubled, vec![2, 4, 6, 8, 10]);
}

#[test]
fn test_collection_filter_parallel() {
    let collection = Collection::new(vec![1, 2, 3, 4, 5]);
    let evens = collection.filter_parallel(|x| x % 2 == 0);
    assert_eq!(evens, vec![2, 4]);
}

#[test]
fn test_collection_reduce_parallel() {
    let collection = Collection::new(vec![1, 2, 3, 4, 5]);
    let sum = collection.reduce_parallel(|acc, x| acc + x, 0);
    assert_eq!(sum, 15);
}

#[test]
fn test_collection_for_each_parallel() {
    let collection = Collection::new(vec![1, 2, 3, 4, 5]);
    let sum = Mutex::new(0);
    collection.for_each_parallel(|x| {
        let mut guard = sum.lock().unwrap();
        *guard += *x;
    });
    assert_eq!(*sum.lock().unwrap(), 15);
}

#[test]
fn test_collection_find_parallel() {
    let collection = Collection::new(vec![1, 2, 3, 4, 5]);
    let found = collection.find_parallel(|x| x % 2 == 0);
    assert!(found.is_some());
    assert!(found.unwrap() % 2 == 0);
}

#[test]
fn test_collection_every_parallel() {
    let collection = Collection::new(vec![2, 4, 6, 8]);
    assert!(collection.every_parallel(|x| x % 2 == 0));
}

#[test]
fn test_collection_some_parallel() {
    let collection = Collection::new(vec![1, 2, 3, 4, 5]);
    assert!(collection.some_parallel(|x| x % 2 == 0));
}

#[test]
fn test_empty_collection_parallel() {
    let empty: Vec<i32> = vec![];
    assert!(map_parallel(&empty, |x| x * 2).is_empty());
    assert!(filter_parallel(&empty, |x| x % 2 == 0).is_empty());
    assert_eq!(reduce_parallel(&empty, |acc, x| acc + x, 0), 0);
    assert_eq!(find_parallel(&empty, |x| x % 2 == 0), None);
    assert!(every_parallel(&empty, |x| x % 2 == 0));
    assert!(!some_parallel(&empty, |x| x % 2 == 0));
}
