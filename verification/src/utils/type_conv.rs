//! Conversion traits: text keys, callable abstractions, comparable and
//! hashable projections, and checked text-based conversion.

use std::hash::Hasher;
use vstd::prelude::*;
use vstd::std_specs::hash::DefaultHasherAdditionalSpecFns;
use vstd::string::StringExecFns;

use crate::utils::digits::dec_digits;
use crate::utils::digits::i64_to_string;
use crate::utils::digits::int_digits;
use crate::utils::digits::u64_to_string;
use crate::utils::error::LodashError;

verus! {

/// Values that can serve as a text key for grouping operations.
pub trait ToKey {
    /// The key text.
    spec fn key_spec(&self) -> Seq<char>;

    /// Render the key text.
    fn to_key(&self) -> (r: String)
        ensures
            r@ == self.key_spec(),
    ;
}

impl ToKey for String {
    open spec fn key_spec(&self) -> Seq<char> {
        self@
    }

    fn to_key(&self) -> (r: String) {
        self.as_str().to_owned()
    }
}

impl ToKey for &str {
    open spec fn key_spec(&self) -> Seq<char> {
        (*self)@
    }

    fn to_key(&self) -> (r: String) {
        (*self).to_owned()
    }
}

impl ToKey for i32 {
    open spec fn key_spec(&self) -> Seq<char> {
        int_digits(*self as int)
    }

    fn to_key(&self) -> (r: String) {
        i64_to_string(*self as i64)
    }
}

impl ToKey for i64 {
    open spec fn key_spec(&self) -> Seq<char> {
        int_digits(*self as int)
    }

    fn to_key(&self) -> (r: String) {
        i64_to_string(*self)
    }
}

impl ToKey for u32 {
    open spec fn key_spec(&self) -> Seq<char> {
        dec_digits(*self as nat)
    }

    fn to_key(&self) -> (r: String) {
        u64_to_string(*self as u64)
    }
}

impl ToKey for u64 {
    open spec fn key_spec(&self) -> Seq<char> {
        dec_digits(*self as nat)
    }

    fn to_key(&self) -> (r: String) {
        u64_to_string(*self)
    }
}

impl ToKey for bool {
    open spec fn key_spec(&self) -> Seq<char> {
        if *self {
            "true"@
        } else {
            "false"@
        }
    }

    fn to_key(&self) -> (r: String) {
        if *self {
            "true".to_owned()
        } else {
            "false".to_owned()
        }
    }
}

/// A test on borrowed values: every `Fn(&T) -> bool` is one.
pub trait Predicate<T> {
    /// When the predicate may be applied.
    spec fn pred_requires(&self, value: &T) -> bool;

    /// What verdicts the predicate can give.
    spec fn pred_ensures(&self, value: &T, r: bool) -> bool;

    /// Apply the predicate to the given value.
    fn apply(&self, value: &T) -> (r: bool)
        requires
            self.pred_requires(value),
        ensures
            self.pred_ensures(value, r),
    ;
}

impl<T, F: Fn(&T) -> bool> Predicate<T> for F {
    open spec fn pred_requires(&self, value: &T) -> bool {
        call_requires(*self, (value,))
    }

    open spec fn pred_ensures(&self, value: &T, r: bool) -> bool {
        call_ensures(*self, (value,), r)
    }

    fn apply(&self, value: &T) -> (r: bool) {
        self(value)
    }
}

/// A transformation of borrowed values: every `Fn(&T) -> U` is one.
pub trait Mapper<T, U> {
    /// When the mapper may be applied.
    spec fn map_requires(&self, value: &T) -> bool;

    /// What outputs the mapper can give.
    spec fn map_ensures(&self, value: &T, r: U) -> bool;

    /// Apply the mapper to the given value.
    fn apply(&self, value: &T) -> (r: U)
        requires
            self.map_requires(value),
        ensures
            self.map_ensures(value, r),
    ;
}

impl<T, U, F: Fn(&T) -> U> Mapper<T, U> for F {
    open spec fn map_requires(&self, value: &T) -> bool {
        call_requires(*self, (value,))
    }

    open spec fn map_ensures(&self, value: &T, r: U) -> bool {
        call_ensures(*self, (value,), r)
    }

    fn apply(&self, value: &T) -> (r: U) {
        self(value)
    }
}

/// A folding step: every `Fn(U, &T) -> U` is one.
pub trait Reducer<T, U> {
    /// When the reducer may be applied.
    spec fn reduce_requires(&self, acc: U, value: &T) -> bool;

    /// What accumulators the reducer can give back.
    spec fn reduce_ensures(&self, acc: U, value: &T, r: U) -> bool;

    /// Apply the reducer to the accumulator and value.
    fn apply(&self, acc: U, value: &T) -> (r: U)
        requires
            self.reduce_requires(acc, value),
        ensures
            self.reduce_ensures(acc, value, r),
    ;
}

impl<T, U, F: Fn(U, &T) -> U> Reducer<T, U> for F {
    open spec fn reduce_requires(&self, acc: U, value: &T) -> bool {
        call_requires(*self, (acc, value))
    }

    open spec fn reduce_ensures(&self, acc: U, value: &T, r: U) -> bool {
        call_ensures(*self, (acc, value), r)
    }

    fn apply(&self, acc: U, value: &T) -> (r: U) {
        self(acc, value)
    }
}

/// Values with a comparable projection for sorting.
pub trait ToComparable {
    /// The comparable projection's type.
    type Output: PartialOrd;

    /// What projections the conversion can give.
    spec fn comparable_ensures(&self, r: Self::Output) -> bool;

    /// Convert the value to its comparable projection.
    fn to_comparable(&self) -> (r: Self::Output)
        ensures
            self.comparable_ensures(r),
    ;
}

impl ToComparable for i32 {
    type Output = i32;

    open spec fn comparable_ensures(&self, r: i32) -> bool {
        r == *self
    }

    fn to_comparable(&self) -> (r: i32) {
        *self
    }
}

impl ToComparable for i64 {
    type Output = i64;

    open spec fn comparable_ensures(&self, r: i64) -> bool {
        r == *self
    }

    fn to_comparable(&self) -> (r: i64) {
        *self
    }
}

impl ToComparable for u32 {
    type Output = u32;

    open spec fn comparable_ensures(&self, r: u32) -> bool {
        r == *self
    }

    fn to_comparable(&self) -> (r: u32) {
        *self
    }
}

impl ToComparable for u64 {
    type Output = u64;

    open spec fn comparable_ensures(&self, r: u64) -> bool {
        r == *self
    }

    fn to_comparable(&self) -> (r: u64) {
        *self
    }
}

impl ToComparable for String {
    type Output = String;

    open spec fn comparable_ensures(&self, r: String) -> bool {
        r@ == self@
    }

    fn to_comparable(&self) -> (r: String) {
        self.as_str().to_owned()
    }
}

impl ToComparable for &str {
    type Output = String;

    open spec fn comparable_ensures(&self, r: String) -> bool {
        r@ == (*self)@
    }

    fn to_comparable(&self) -> (r: String) {
        (*self).to_owned()
    }
}

/// Duplication for collection operations: cloning, with the clone's own
/// guarantee carried along.
pub trait SafeClone: Clone + Sized {
    /// Clone the value.
    fn safe_clone(&self) -> (r: Self)
        ensures
            vstd::pervasive::cloned(*self, r),
    ;
}

impl<T: Clone> SafeClone for T {
    fn safe_clone(&self) -> (r: Self) {
        self.clone()
    }
}

/// Values with a 64-bit hash key.
pub trait ToHashKey {
    /// What keys the conversion can give.
    spec fn hash_key_ensures(&self, r: u64) -> bool;

    /// Convert the value to its hash key.
    fn to_hash_key(&self) -> (r: u64)
        ensures
            self.hash_key_ensures(r),
    ;
}

impl ToHashKey for i32 {
    open spec fn hash_key_ensures(&self, r: u64) -> bool {
        r == *self as u64
    }

    fn to_hash_key(&self) -> (r: u64) {
        #[verifier::truncate]
        (*self as u64)
    }
}

impl ToHashKey for i64 {
    open spec fn hash_key_ensures(&self, r: u64) -> bool {
        r == *self as u64
    }

    fn to_hash_key(&self) -> (r: u64) {
        #[verifier::truncate]
        (*self as u64)
    }
}

impl ToHashKey for u32 {
    open spec fn hash_key_ensures(&self, r: u64) -> bool {
        r == *self as u64
    }

    fn to_hash_key(&self) -> (r: u64) {
        *self as u64
    }
}

impl ToHashKey for u64 {
    open spec fn hash_key_ensures(&self, r: u64) -> bool {
        r == *self
    }

    fn to_hash_key(&self) -> (r: u64) {
        *self
    }
}

impl ToHashKey for String {
    open spec fn hash_key_ensures(&self, r: u64) -> bool {
        r == text_hash_of(self@)
    }

    fn to_hash_key(&self) -> (r: u64) {
        hash_text(self.as_str())
    }
}

impl ToHashKey for &str {
    open spec fn hash_key_ensures(&self, r: u64) -> bool {
        r == text_hash_of((*self)@)
    }

    fn to_hash_key(&self) -> (r: u64) {
        hash_text(self)
    }
}

/// The hash key of a text: the standard library's default hasher, fed the
/// text's UTF-8 bytes and then a terminator byte, the way string slices
/// are hashed.  Equal texts hash alike; the digest itself is the hasher's
/// own business.
pub open spec fn text_hash_of(s: Seq<char>) -> u64 {
    std::collections::hash_map::DefaultHasher::spec_finish(
        Seq::<Seq<u8>>::empty().push(vstd::utf8::encode_utf8(s)).push(seq![0xffu8]),
    )
}

/// Hash a text with the standard library's default hasher.  Every hasher
/// made by `DefaultHasher::new` behaves like every other, so the key is a
/// function of the text alone.
fn hash_text(s: &str) -> (r: u64)
    ensures
        r == text_hash_of(s@),
{
    let mut hasher = std::collections::hash_map::DefaultHasher::new();
    hasher.write(s.as_bytes());
    let terminator: Vec<u8> = vec![0xff];
    hasher.write(terminator.as_slice());
    proof {
        assert(terminator@ =~= seq![0xffu8]);
    }
    hasher.finish()
}

/// Relies on str::parse, that is `U::from_str`: `Some` exactly when `U`'s
/// parser accepts the text.  What the parser accepts is `U`'s business, so
/// nothing is assumed of the outcome.
#[verifier::external_body]
fn parse_text<U: std::str::FromStr>(s: &str) -> Option<U> {
    s.parse::<U>().ok()
}

/// Convert between types through their text form: render `value`, then
/// parse it as a `U`.  Whether the parse succeeds is `U`'s parser's
/// decision; on failure the result is a type-conversion error.  Which
/// texts the error's fields carry — here, a rendering of the value that
/// would not parse — is a diagnostic detail the contract leaves open.
pub fn safe_convert<T: std::fmt::Display, U: std::str::FromStr>(value: T) -> (r: Result<
    U,
    LodashError,
>)
    ensures
        r matches Err(e) ==> e is TypeConversion,
{
    let text = value.to_string();
    match parse_text::<U>(text.as_str()) {
        Some(v) => Ok(v),
        None => Err(LodashError::type_conversion(text.as_str(), "requested type")),
    }
}

/// Render a value through its display text.
pub fn to_string<T: std::fmt::Display>(value: &T) -> (r: String)
    ensures
        vstd::string::to_string_from_display_ensures::<T>(value, r),
{
    value.to_string()
}

} // verus!
