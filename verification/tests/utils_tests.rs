//! Tests for the error type and the conversion helpers.

use lodash_rs::utils::error::IntoLodashError;
use lodash_rs::utils::error::LodashError;
use lodash_rs::utils::type_conv::Mapper;
use lodash_rs::utils::type_conv::Predicate;
use lodash_rs::utils::type_conv::Reducer;
use lodash_rs::utils::type_conv::SafeClone;
use lodash_rs::utils::type_conv::ToComparable;
use lodash_rs::utils::type_conv::ToHashKey;
use lodash_rs::utils::type_conv::ToKey;
use lodash_rs::utils::type_conv::safe_convert;
use lodash_rs::utils::type_conv::to_string;

#[test]
fn test_error_creation() {
    let err = LodashError::invalid_input("test message");
    assert!(matches!(err, LodashError::InvalidInput { .. }));
    assert_eq!(err.message(), "Invalid input: test message");

    let err = LodashError::type_conversion("String", "i32");
    assert!(matches!(err, LodashError::TypeConversion { .. }));
    assert_eq!(err.message(), "Type conversion failed: String -> i32");

    let err = LodashError::index_out_of_bounds(5, 3);
    assert!(matches!(err, LodashError::IndexOutOfBounds { .. }));
    assert_eq!(err.message(), "Index 5 is out of bounds for collection of size 3");

    let err = LodashError::empty_collection();
    assert!(matches!(err, LodashError::EmptyCollection));
    assert_eq!(err.message(), "Operation requires non-empty collection");
}

#[test]
fn test_error_conversion() {
    let result: std::result::Result<i32, String> = Err("test error".to_string());
    let lodash_result: Result<i32, LodashError> = result.into_lodash_error();

    assert!(lodash_result.is_err());
    if let Err(LodashError::Custom { message }) = lodash_result {
        assert_eq!(message, "test error");
    } else {
        panic!("Expected Custom error variant");
    }
}

#[test]
fn test_error_conversion_keeps_ok() {
    let result: std::result::Result<i32, String> = Ok(7);
    assert_eq!(result.into_lodash_error(), Ok(7));
}

#[test]
fn test_other_error_messages() {
    assert_eq!(
        LodashError::invalid_predicate("bad").message(),
        "Invalid predicate function: bad"
    );
    assert_eq!(LodashError::custom("boom").message(), "Custom error: boom");
    assert_eq!(LodashError::async_error("late").message(), "Async operation failed: late");
    assert_eq!(
        LodashError::parallel_error("split").message(),
        "Parallel operation failed: split"
    );
    assert_eq!(LodashError::wasm_error("host").message(), "WASM operation failed: host");
}

#[test]
fn test_index_error_message_digits() {
    let err = LodashError::index_out_of_bounds(1234567890, 0);
    assert_eq!(err.message(), "Index 1234567890 is out of bounds for collection of size 0");
}

#[test]
fn test_to_key() {
    assert_eq!("hello".to_key(), "hello");
    assert_eq!(42.to_key(), "42");
    assert_eq!(true.to_key(), "true");
}

#[test]
fn test_to_key_more_types() {
    assert_eq!(String::from("abc").to_key(), "abc");
    assert_eq!((-42i32).to_key(), "-42");
    assert_eq!(i64::MIN.to_key(), "-9223372036854775808");
    assert_eq!(0u32.to_key(), "0");
    assert_eq!(18446744073709551615u64.to_key(), "18446744073709551615");
    assert_eq!(false.to_key(), "false");
}

#[test]
fn test_predicate() {
    let pred = |x: &i32| *x > 5;
    assert!(Predicate::apply(&pred, &6));
    assert!(!Predicate::apply(&pred, &4));
}

#[test]
fn test_mapper() {
    let mapper = |x: &i32| x * 2;
    assert_eq!(Mapper::apply(&mapper, &3), 6);
}

#[test]
fn test_reducer() {
    let reducer = |acc: i32, x: &i32| acc + x;
    assert_eq!(Reducer::apply(&reducer, 5, &3), 8);
}

#[test]
fn test_to_comparable() {
    assert_eq!(42.to_comparable(), 42);
    assert_eq!("hello".to_comparable(), "hello");
}

#[test]
fn test_safe_clone() {
    let original = vec![1, 2, 3];
    let cloned = original.safe_clone();
    assert_eq!(original, cloned);
}

#[test]
fn test_to_hash_key() {
    let key1 = 42.to_hash_key();
    let key2 = 42.to_hash_key();
    assert_eq!(key1, key2);

    let str_key1 = "hello".to_hash_key();
    let str_key2 = "hello".to_hash_key();
    assert_eq!(str_key1, str_key2);
}

#[test]
fn test_safe_convert() {
    let parsed: Result<i32, LodashError> = safe_convert("123");
    assert_eq!(parsed, Ok(123));

    let failed: Result<i32, LodashError> = safe_convert("not a number");
    assert!(matches!(failed, Err(LodashError::TypeConversion { .. })));
}

#[test]
fn test_validate_concurrency() {
    assert_eq!(lodash_rs::utils::async_support::validate_concurrency(3), Ok(()));
    let rejected = lodash_rs::utils::async_support::validate_concurrency(0);
    if let Err(e) = rejected {
        assert!(matches!(e, LodashError::InvalidInput { .. }));
        assert_eq!(e.message(), "Invalid input: Concurrency must be greater than 0");
    } else {
        panic!("Expected zero concurrency to be rejected");
    }
}

#[test]
fn test_to_string() {
    assert_eq!(to_string(&42), "42");
    assert_eq!(to_string(&"abc"), "abc");
}
