//! Tests for the synchronous chain builder and its evaluation.

use lodash_rs::chain::chain;

type IntMapper = fn(&i32) -> i32;
type IntPred = fn(&i32) -> bool;

#[test]
fn test_chain_map() {
    let result: Vec<i32> = chain::<i32, IntMapper, IntPred>(&[1, 2, 3]).map(|x| x * 2).collect();
    assert_eq!(result, vec![2, 4, 6]);
}

#[test]
fn test_chain_filter() {
    let result: Vec<i32> = chain::<i32, IntMapper, IntPred>(&[1, 2, 3, 4, 5])
        .filter(|x| x % 2 == 0)
        .collect();
    assert_eq!(result, vec![2, 4]);
}

#[test]
fn test_chain_take() {
    let result: Vec<i32> = chain::<i32, IntMapper, IntPred>(&[1, 2, 3, 4, 5]).take(3).collect();
    assert_eq!(result, vec![1, 2, 3]);
}

#[test]
fn test_chain_skip() {
    let result: Vec<i32> = chain::<i32, IntMapper, IntPred>(&[1, 2, 3, 4, 5]).skip(2).collect();
    assert_eq!(result, vec![3, 4, 5]);
}

#[test]
fn test_chain_reverse() {
    let result: Vec<i32> = chain::<i32, IntMapper, IntPred>(&[1, 2, 3]).reverse().collect();
    assert_eq!(result, vec![3, 2, 1]);
}

#[test]
fn test_chain_complex() {
    let result: Vec<i32> = chain(&[1, 2, 3, 4, 5, 6, 7, 8, 9, 10])
        .filter(|x: &i32| x % 2 == 0)
        .map(|x: &i32| x * 3)
        .take(3)
        .collect();
    assert_eq!(result, vec![6, 12, 18]);
}

#[test]
fn test_chain_value() {
    let result = chain::<i32, IntMapper, IntPred>(&[1, 2, 3]).map(|x| x * 2).value();
    assert_eq!(result, vec![2, 4, 6]);
}

#[test]
fn test_chain_into_collection() {
    let collection = chain::<i32, IntMapper, IntPred>(&[1, 2, 3]).map(|x| x * 2).into_collection();
    assert_eq!(collection.data(), &vec![2, 4, 6]);
}

#[test]
fn test_chain_empty() {
    let empty: Vec<i32> = vec![];
    let result: Vec<i32> = chain::<i32, IntMapper, IntPred>(&empty).map(|x| x * 2).collect();
    assert!(result.is_empty());
}

#[test]
fn test_chain_order_of_operations_matters() {
    let filtered_then_shifted = chain(&[1, 2, 3, 4, 5])
        .filter(|x: &i32| x % 2 == 0)
        .map(|x: &i32| x + 1)
        .value();
    let shifted_then_filtered = chain(&[1, 2, 3, 4, 5])
        .map(|x: &i32| x + 1)
        .filter(|x: &i32| x % 2 == 0)
        .value();
    assert_eq!(filtered_then_shifted, vec![3, 5]);
    assert_eq!(shifted_then_filtered, vec![2, 4, 6]);
    assert_ne!(filtered_then_shifted, shifted_then_filtered);
}

#[test]
fn test_chain_reverse_twice_restores_order() {
    let result = chain::<i32, IntMapper, IntPred>(&[1, 2, 3, 4]).reverse().reverse().value();
    assert_eq!(result, vec![1, 2, 3, 4]);
}

#[test]
fn test_chain_take_more_than_len() {
    let result = chain::<i32, IntMapper, IntPred>(&[1, 2]).take(10).value();
    assert_eq!(result, vec![1, 2]);
}

#[test]
fn test_chain_skip_more_than_len() {
    let result = chain::<i32, IntMapper, IntPred>(&[1, 2]).skip(10).value();
    assert!(result.is_empty());
}

#[test]
fn test_chain_collect_converts() {
    let result: Vec<i64> = chain::<i32, IntMapper, IntPred>(&[1, 2, 3]).map(|x| x * 2).collect();
    assert_eq!(result, vec![2i64, 4, 6]);
}
