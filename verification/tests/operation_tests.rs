//! Tests for the whole-collection operations, sampling included.

use lodash_rs::collection::Collection;
use lodash_rs::collection::operation::sample;
use lodash_rs::collection::operation::sample_size;
use lodash_rs::collection::operation::shuffle;
use lodash_rs::collection::operation::size;

#[test]
fn test_size() {
    let numbers = vec![1, 2, 3, 4, 5];
    assert_eq!(size(&numbers), 5);

    let empty: Vec<i32> = vec![];
    assert_eq!(size(&empty), 0);
}

#[test]
fn test_shuffle() {
    let numbers = vec![1, 2, 3, 4, 5];
    let shuffled = shuffle(&numbers);
    assert_eq!(shuffled.len(), 5);

    for num in &numbers {
        assert!(shuffled.contains(num));
    }
}

#[test]
fn test_shuffle_preserves_multiplicity() {
    let numbers = vec![1, 1, 2, 2, 2, 3];
    let mut shuffled = shuffle(&numbers);
    shuffled.sort();
    assert_eq!(shuffled, vec![1, 1, 2, 2, 2, 3]);
}

#[test]
fn test_sample() {
    let numbers = vec![1, 2, 3, 4, 5];
    let random = sample(&numbers);
    assert!(random.is_some());
    assert!(numbers.contains(random.unwrap()));

    let empty: Vec<i32> = vec![];
    assert_eq!(sample(&empty), None);
}

#[test]
fn test_sample_size() {
    let numbers = vec![1, 2, 3, 4, 5];
    let samples = sample_size(&numbers, 3);
    assert_eq!(samples.len(), 3);

    for sample in &samples {
        assert!(numbers.contains(sample));
    }

    let samples_large = sample_size(&numbers, 10);
    assert_eq!(samples_large.len(), 5);

    let samples_zero = sample_size(&numbers, 0);
    assert!(samples_zero.is_empty());

    let empty: Vec<i32> = vec![];
    let samples_empty = sample_size(&empty, 3);
    assert!(samples_empty.is_empty());
}

#[test]
fn test_sample_size_distinct_positions() {
    let numbers = vec![1, 2, 3, 4, 5];
    let mut samples = sample_size(&numbers, 5);
    samples.sort();
    assert_eq!(samples, vec![1, 2, 3, 4, 5]);

    let doubled = vec![7, 7, 8];
    let samples = sample_size(&doubled, 3);
    assert_eq!(samples.iter().filter(|x| **x == 7).count(), 2);
    assert_eq!(samples.iter().filter(|x| **x == 8).count(), 1);
}

#[test]
fn test_collection_size() {
    let collection = Collection::new(vec![1, 2, 3, 4, 5]);
    assert_eq!(collection.size(), 5);
}

#[test]
fn test_collection_shuffle() {
    let collection = Collection::new(vec![1, 2, 3, 4, 5]);
    let shuffled = collection.shuffle();
    assert_eq!(shuffled.len(), 5);

    for num in collection.data() {
        assert!(shuffled.contains(num));
    }
}

#[test]
fn test_collection_sample() {
    let collection = Collection::new(vec![1, 2, 3, 4, 5]);
    let random = collection.sample();
    assert!(random.is_some());
    assert!(collection.data().contains(random.unwrap()));

    let empty: Collection<i32> = Collection::empty();
    assert_eq!(empty.sample(), None);
}

#[test]
fn test_collection_sample_size() {
    let collection = Collection::new(vec![1, 2, 3, 4, 5]);
    let samples = collection.sample_size(3);
    assert_eq!(samples.len(), 3);

    for sample in &samples {
        assert!(collection.data().contains(sample));
    }
}

#[test]
fn test_empty_collection_operations() {
    let empty: Vec<i32> = vec![];
    assert_eq!(size(&empty), 0);
    assert!(shuffle(&empty).is_empty());
    assert_eq!(sample(&empty), None);
    assert!(sample_size(&empty, 3).is_empty());
}
