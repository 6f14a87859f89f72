//! Parallel variants of the element-wise operations.
//!
//! The fan-out is rayon's: an indexed parallel iterator visits every element
//! once and `collect` keeps the element order, which is all the contracts
//! here rely on.  The decisions around the fan-out — which elements to keep,
//! what to answer — are made in verified code over the collected outputs.
//! Folding is inherently sequential, so `reduce_parallel` folds in order on
//! the calling thread.

use vstd::prelude::*;

use rayon::iter::IntoParallelRefIterator;
use rayon::iter::ParallelIterator;

use crate::collection::Collection;
use crate::specs::callable_on;
use crate::specs::filters_to;
use crate::specs::folds_to;
use crate::specs::lemma_masked_push;
use crate::specs::maps_to;
use crate::specs::masked;
use crate::specs::fold_callable;

verus! {

/// Relies on rayon's `par_iter().map(..).collect()`: an indexed parallel
/// iterator over a slice visits each element once, and collecting it
/// preserves the element order, so the result is the element-wise image of
/// the input, in order.
#[verifier::external_body]
fn par_map<T: Sync, U: Send, F: Fn(&T) -> U + Send + Sync>(collection: &[T], f: F) -> (r: Vec<U>)
    requires
        callable_on(f, collection@),
    ensures
        maps_to(f, collection@, r@),
{
    collection.par_iter().map(f).collect()
}

/// Relies on rayon's `par_iter().for_each(..)`: calls `f` once on each
/// element, in some order, on the pool's threads.
#[verifier::external_body]
fn par_for_each<T: Sync, F: Fn(&T) + Send + Sync>(collection: &[T], f: F)
    requires
        callable_on(f, collection@),
{
    collection.par_iter().for_each(f);
}

/// The element-wise image of the collection under `iteratee`, computed on a
/// worker pool; order is preserved.
pub fn map_parallel<T: Sync, U: Send, F: Fn(&T) -> U + Send + Sync>(
    collection: &[T],
    iteratee: F,
) -> (r: Vec<U>)
    requires
        callable_on(iteratee, collection@),
    ensures
        maps_to(iteratee, collection@, r@),
{
    par_map(collection, iteratee)
}

/// The elements `predicate` accepts, in their original order; the verdicts
/// are computed on a worker pool.
pub fn filter_parallel<T: Copy + Sync, F: Fn(&T) -> bool + Send + Sync>(
    collection: &[T],
    predicate: F,
) -> (r: Vec<T>)
    requires
        callable_on(predicate, collection@),
    ensures
        filters_to(predicate, collection@, r@),
{
    let verdicts = par_map(collection, predicate);
    let n = collection.len();
    let mut r: Vec<T> = Vec::new();
    let ghost mut keep: Seq<bool> = Seq::empty();
    let mut j: usize = 0;
    while j < n
        invariant
            n == collection@.len(),
            verdicts@.len() == n,
            forall|i: int|
                0 <= i < n ==> call_ensures(predicate, (&collection@[i],), #[trigger] verdicts@[i]),
            j <= n,
            keep.len() == j,
            forall|i: int| 0 <= i < j ==> keep[i] == verdicts@[i],
            r@ == masked(collection@.subrange(0, j as int), keep),
        decreases n - j,
    {
        let verdict = verdicts[j];
        proof {
            lemma_masked_push(collection@.subrange(0, j as int), keep, collection@[j as int],
                verdict);
            assert(collection@.subrange(0, j as int).push(collection@[j as int])
                =~= collection@.subrange(0, j + 1));
            keep = keep.push(verdict);
        }
        if verdict {
            r.push(collection[j]);
        }
        j += 1;
    }
    proof {
        assert(collection@.subrange(0, n as int) =~= collection@);
        assert forall|i: int|
            0 <= i < n implies call_ensures(predicate, (&collection@[i],), #[trigger] keep[i]) by {
            assert(keep[i] == verdicts@[i]);
        }
    }
    r
}

/// A left fold of `iteratee` over the elements, front to back.  Folding
/// threads one accumulator through every element, so it runs sequentially.
pub fn reduce_parallel<T, U, F: Fn(U, &T) -> U>(collection: &[T], iteratee: F, initial: U) -> (r:
    U)
    requires
        fold_callable(iteratee, initial, collection@),
    ensures
        folds_to(iteratee, initial, collection@, r),
{
    crate::collection::iteration::reduce(collection, iteratee, initial)
}

/// Call `iteratee` once on each element, on a worker pool, in no particular
/// order.
pub fn for_each_parallel<T: Sync, F: Fn(&T) + Send + Sync>(collection: &[T], iteratee: F)
    requires
        callable_on(iteratee, collection@),
{
    par_for_each(collection, iteratee);
}

/// Some element `predicate` accepts, or `None` when it rejects every
/// element; the verdicts are computed on a worker pool.
pub fn find_parallel<'a, T: Sync, F: Fn(&T) -> bool + Send + Sync>(
    collection: &'a [T],
    predicate: F,
) -> (r: Option<&'a T>)
    requires
        callable_on(predicate, collection@),
    ensures
        (r matches Some(x) ==> exists|i: int|
            {
                &&& 0 <= i < collection@.len()
                &&& *x == collection@[i]
                &&& call_ensures(predicate, (&collection@[i],), true)
            }),
        r is None ==> forall|i: int|
            0 <= i < collection@.len() ==> call_ensures(predicate, (&collection@[i],), false),
{
    let verdicts = par_map(collection, predicate);
    let n = collection.len();
    let mut j: usize = 0;
    while j < n
        invariant
            n == collection@.len(),
            verdicts@.len() == n,
            forall|i: int|
                0 <= i < n ==> call_ensures(predicate, (&collection@[i],), #[trigger] verdicts@[i]),
            j <= n,
            forall|i: int| 0 <= i < j ==> !verdicts@[i],
        decreases n - j,
    {
        if verdicts[j] {
            return Some(&collection[j]);
        }
        j += 1;
    }
    proof {
        assert forall|i: int|
            0 <= i < collection@.len() implies call_ensures(
            predicate,
            (&collection@[i],),
            false,
        ) by {
            assert(call_ensures(predicate, (&collection@[i],), verdicts@[i]));
            assert(!verdicts@[i]);
        }
    }
    None
}

/// Whether `predicate` accepts every element; the verdicts are computed on
/// a worker pool.
pub fn every_parallel<T: Sync, F: Fn(&T) -> bool + Send + Sync>(
    collection: &[T],
    predicate: F,
) -> (r: bool)
    requires
        callable_on(predicate, collection@),
    ensures
        r ==> forall|i: int|
            0 <= i < collection@.len() ==> call_ensures(predicate, (&collection@[i],), true),
        !r ==> exists|i: int|
            {
                &&& 0 <= i < collection@.len()
                &&& call_ensures(predicate, (&collection@[i],), false)
            },
{
    let verdicts = par_map(collection, predicate);
    let n = collection.len();
    let mut j: usize = 0;
    while j < n
        invariant
            n == collection@.len(),
            verdicts@.len() == n,
            forall|i: int|
                0 <= i < n ==> call_ensures(predicate, (&collection@[i],), #[trigger] verdicts@[i]),
            j <= n,
            forall|i: int| 0 <= i < j ==> verdicts@[i],
        decreases n - j,
    {
        if !verdicts[j] {
            return false;
        }
        j += 1;
    }
    proof {
        assert forall|i: int|
            0 <= i < collection@.len() implies call_ensures(
            predicate,
            (&collection@[i],),
            true,
        ) by {
            assert(call_ensures(predicate, (&collection@[i],), verdicts@[i]));
            assert(verdicts@[i]);
        }
    }
    true
}

/// Whether `predicate` accepts some element; the verdicts are computed on a
/// worker pool.
pub fn some_parallel<T: Sync, F: Fn(&T) -> bool + Send + Sync>(
    collection: &[T],
    predicate: F,
) -> (r: bool)
    requires
        callable_on(predicate, collection@),
    ensures
        r ==> exists|i: int|
            {
                &&& 0 <= i < collection@.len()
                &&& call_ensures(predicate, (&collection@[i],), true)
            },
        !r ==> forall|i: int|
            0 <= i < collection@.len() ==> call_ensures(predicate, (&collection@[i],), false),
{
    let verdicts = par_map(collection, predicate);
    let n = collection.len();
    let mut j: usize = 0;
    while j < n
        invariant
            n == collection@.len(),
            verdicts@.len() == n,
            forall|i: int|
                0 <= i < n ==> call_ensures(predicate, (&collection@[i],), #[trigger] verdicts@[i]),
            j <= n,
            forall|i: int| 0 <= i < j ==> !verdicts@[i],
        decreases n - j,
    {
        if verdicts[j] {
            return true;
        }
        j += 1;
    }
    proof {
        assert forall|i: int|
            0 <= i < collection@.len() implies call_ensures(
            predicate,
            (&collection@[i],),
            false,
        ) by {
            assert(call_ensures(predicate, (&collection@[i],), verdicts@[i]));
            assert(!verdicts@[i]);
        }
    }
    false
}

impl<T> Collection<T> {
    /// The element-wise image of the collection under `iteratee`, computed
    /// on a worker pool; order is preserved.
    pub fn map_parallel<U: Send, F: Fn(&T) -> U + Send + Sync>(&self, iteratee: F) -> (r: Vec<U>) where
        T: Sync,

        requires
            callable_on(iteratee, self@),
        ensures
            maps_to(iteratee, self@, r@),
    {
        map_parallel(self.data().as_slice(), iteratee)
    }

    /// The elements `predicate` accepts, in their original order.
    pub fn filter_parallel<F: Fn(&T) -> bool + Send + Sync>(&self, predicate: F) -> (r: Vec<
        T,
    >) where T: Copy + Sync
        requires
            callable_on(predicate, self@),
        ensures
            filters_to(predicate, self@, r@),
    {
        filter_parallel(self.data().as_slice(), predicate)
    }

    /// A left fold of `iteratee` over the elements, front to back.
    pub fn reduce_parallel<U, F: Fn(U, &T) -> U>(&self, iteratee: F, initial: U) -> (r: U)
        requires
            fold_callable(iteratee, initial, self@),
        ensures
            folds_to(iteratee, initial, self@, r),
    {
        reduce_parallel(self.data().as_slice(), iteratee, initial)
    }

    /// Call `iteratee` once on each element, on a worker pool.
    pub fn for_each_parallel<F: Fn(&T) + Send + Sync>(&self, iteratee: F) where T: Sync
        requires
            callable_on(iteratee, self@),
    {
        for_each_parallel(self.data().as_slice(), iteratee);
    }

    /// Some element `predicate` accepts, or `None` when it rejects all.
    pub fn find_parallel<F: Fn(&T) -> bool + Send + Sync>(&self, predicate: F) -> (r: Option<
        &T,
    >) where T: Sync
        requires
            callable_on(predicate, self@),
        ensures
            (r matches Some(x) ==> exists|i: int|
                {
                    &&& 0 <= i < self@.len()
                    &&& *x == self@[i]
                    &&& call_ensures(predicate, (&self@[i],), true)
                }),
            r is None ==> forall|i: int|
                0 <= i < self@.len() ==> call_ensures(predicate, (&self@[i],), false),
    {
        find_parallel(self.data().as_slice(), predicate)
    }

    /// Whether `predicate` accepts every element.
    pub fn every_parallel<F: Fn(&T) -> bool + Send + Sync>(&self, predicate: F) -> (r: bool) where
        T: Sync,

        requires
            callable_on(predicate, self@),
        ensures
            r ==> forall|i: int|
                0 <= i < self@.len() ==> call_ensures(predicate, (&self@[i],), true),
            !r ==> exists|i: int|
                {
                    &&& 0 <= i < self@.len()
                    &&& call_ensures(predicate, (&self@[i],), false)
                },
    {
        every_parallel(self.data().as_slice(), predicate)
    }

    /// Whether `predicate` accepts some element.
    pub fn some_parallel<F: Fn(&T) -> bool + Send + Sync>(&self, predicate: F) -> (r: bool) where
        T: Sync,

        requires
            callable_on(predicate, self@),
        ensures
            r ==> exists|i: int|
                {
                    &&& 0 <= i < self@.len()
                    &&& call_ensures(predicate, (&self@[i],), true)
                },
            !r ==> forall|i: int|
                0 <= i < self@.len() ==> call_ensures(predicate, (&self@[i],), false),
    {
        some_parallel(self.data().as_slice(), predicate)
    }
}

} // verus!
