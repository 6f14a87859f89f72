//! Tests for the core collection type and its accessors.

use lodash_rs::collection::Collection;

#[test]
fn mod_test_collection_creation() {
    let collection = Collection::new(vec![1, 2, 3]);
    assert_eq!(collection.len(), 3);
    assert!(!collection.is_empty());
}

#[test]
fn mod_test_empty_collection() {
    let collection: Collection<i32> = Collection::empty();
    assert_eq!(collection.len(), 0);
    assert!(collection.is_empty());
}

#[test]
fn test_get() {
    let collection = Collection::new(vec![1, 2, 3]);
    assert_eq!(collection.get(1), Some(&2));
    assert_eq!(collection.get(5), None);
}

#[test]
fn test_first_last() {
    let collection = Collection::new(vec![1, 2, 3]);
    assert_eq!(collection.first(), Some(&1));
    assert_eq!(collection.last(), Some(&3));
}

#[test]
fn test_indexing() {
    let collection = Collection::new(vec![1, 2, 3]);
    assert_eq!(collection[1], 2);
}

#[test]
fn test_into_iter() {
    let collection = Collection::new(vec![1, 2, 3]);
    let sum: i32 = collection.into_iter().sum();
    assert_eq!(sum, 6);
}

#[test]
fn test_iter() {
    let collection = Collection::new(vec![1, 2, 3]);
    let sum: i32 = collection.iter().sum();
    assert_eq!(sum, 6);
}

#[test]
fn test_data_mut() {
    let mut collection = Collection::new(vec![1, 2, 3]);
    collection.data_mut().push(4);
    assert_eq!(collection.data(), &vec![1, 2, 3, 4]);
}

#[test]
fn test_get_mut() {
    let mut collection = Collection::new(vec![1, 2, 3]);
    if let Some(item) = collection.get_mut(1) {
        *item = 42;
    }
    assert_eq!(collection.get(1), Some(&42));
}

#[test]
fn test_into_vec() {
    let collection = Collection::new(vec![1, 2, 3]);
    assert_eq!(collection.into_vec(), vec![1, 2, 3]);
}

#[test]
fn test_from_conversions() {
    let collection: Collection<i32> = Collection::from(vec![1, 2]);
    assert_eq!(collection.len(), 2);
    let data: Vec<i32> = Vec::from(collection);
    assert_eq!(data, vec![1, 2]);
}
