//! Tests for the iteration functions.

use std::cell::Cell;
use std::cell::RefCell;

use lodash_rs::collection::Collection;
use lodash_rs::collection::iteration::each;
use lodash_rs::collection::iteration::filter;
use lodash_rs::collection::iteration::for_each;
use lodash_rs::collection::iteration::for_each_right;
use lodash_rs::collection::iteration::reduce;
use lodash_rs::collection::iteration::reduce_right;

#[test]
fn test_each() {
    let sum = Cell::new(0);
    each(&[1, 2, 3], |x| sum.set(sum.get() + x));
    assert_eq!(sum.get(), 6);
}

#[test]
fn test_for_each() {
    let sum = Cell::new(0);
    for_each(&[1, 2, 3], |x| sum.set(sum.get() + x));
    assert_eq!(sum.get(), 6);
}

#[test]
fn test_map() {
    let doubled = lodash_rs::collection::iteration::map(&[1, 2, 3], |x| x * 2);
    assert_eq!(doubled, vec![2, 4, 6]);

    let strings = lodash_rs::collection::iteration::map(&[1, 2, 3], |x| x.to_string());
    assert_eq!(strings, vec!["1", "2", "3"]);
}

#[test]
fn test_filter() {
    let evens = filter(&[1, 2, 3, 4, 5], |x| x % 2 == 0);
    assert_eq!(evens, vec![2, 4]);
}

#[test]
fn test_reduce() {
    let sum = reduce(&[1, 2, 3, 4], |acc, x| acc + x, 0);
    assert_eq!(sum, 10);

    let result = reduce(&["a", "b", "c"], |acc, x| format!("{}{}", acc, x), String::new());
    assert_eq!(result, "abc");
}

#[test]
fn test_reduce_right() {
    let result = reduce_right(&["a", "b", "c"], |acc, x| format!("{}{}", acc, x), String::new());
    assert_eq!(result, "cba");
}

#[test]
fn test_for_each_right() {
    let result = RefCell::new(Vec::new());
    for_each_right(&[1, 2, 3], |x| result.borrow_mut().push(*x));
    assert_eq!(result.into_inner(), vec![3, 2, 1]);
}

#[test]
fn test_collection_each() {
    let collection = Collection::new(vec![1, 2, 3]);
    let sum = Cell::new(0);
    collection.each(|x| sum.set(sum.get() + x));
    assert_eq!(sum.get(), 6);
}

#[test]
fn test_collection_map() {
    let collection = Collection::new(vec![1, 2, 3]);
    let doubled = collection.map(|x| x * 2);
    assert_eq!(doubled, vec![2, 4, 6]);
}

#[test]
fn test_collection_filter() {
    let collection = Collection::new(vec![1, 2, 3, 4, 5]);
    let evens = collection.filter(|x| x % 2 == 0);
    assert_eq!(evens, vec![2, 4]);
}

#[test]
fn test_collection_reduce() {
    let collection = Collection::new(vec![1, 2, 3, 4]);
    let sum = collection.reduce(|acc, x| acc + x, 0);
    assert_eq!(sum, 10);
}

#[test]
fn test_collection_reduce_right() {
    let collection = Collection::new(vec!["a", "b", "c"]);
    let result = collection.reduce_right(|acc, x| format!("{}{}", acc, x), String::new());
    assert_eq!(result, "cba");
}

#[test]
fn test_collection_for_each_right() {
    let collection = Collection::new(vec![1, 2, 3]);
    let result = RefCell::new(Vec::new());
    collection.for_each_right(|x| result.borrow_mut().push(*x));
    assert_eq!(result.into_inner(), vec![3, 2, 1]);
}

#[test]
fn iteration_test_empty_collection() {
    let empty: Vec<i32> = vec![];
    let result = lodash_rs::collection::iteration::map(&empty, |x| x * 2);
    assert!(result.is_empty());

    let sum = reduce(&empty, |acc, x| acc + x, 0);
    assert_eq!(sum, 0);
}
