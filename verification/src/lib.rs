//! A verified collection-utility library.
//!
//! The crate offers the classic sequence helpers (`map`, `filter`, `reduce`,
//! `group_by`, `sort_by`, `partition`, sampling) as free functions and as
//! methods on a [`collection::Collection`] wrapper, together with a fluent,
//! deferred-operation [`chain`](chain()) builder and its asynchronous
//! counterpart.  Every function in this crate carries a contract that pins
//! down the returned sequence; the chain's evaluation order is itself a
//! verified theorem (see `chain::laws`).
//!
//! Operations that duplicate elements (`filter`, `partition`, the sorts and
//! groupings, sampling, chain construction) bound the element type by
//! `Copy` rather than `Clone`: a generic `clone` call carries no
//! specification the verifier could hold the duplicates to, while a copy is
//! the value itself.

pub mod chain;
pub mod collection;
pub mod extensions;
pub mod prelude;
pub mod specs;
pub mod utils;

pub use chain::chain;
pub use chain::chain_async;
pub use chain::Chain;
pub use collection::Collection;
