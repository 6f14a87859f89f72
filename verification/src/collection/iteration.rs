//! Element-wise iteration: `each`, `map`, `filter`, `reduce` and friends.

use vstd::prelude::*;

use crate::collection::Collection;
use crate::specs::callable_on;
use crate::specs::filters_to;
use crate::specs::fold_callable;
use crate::specs::folds_to;
use crate::specs::lemma_folds_to_push;
use crate::specs::lemma_masked_push;
use crate::specs::maps_to;
use crate::specs::masked;


verus! {

/// Call `iteratee` once on each element, front to back.
pub fn each<T, F: Fn(&T)>(collection: &[T], iteratee: F)
    requires
        callable_on(iteratee, collection@),
{
    let n = collection.len();
    let mut j: usize = 0;
    while j < n
        invariant
            n == collection@.len(),
            callable_on(iteratee, collection@),
            j <= n,
        decreases n - j,
    {
        iteratee(&collection[j]);
        j += 1;
    }
}

/// Alias for [`each`].
pub fn for_each<T, F: Fn(&T)>(collection: &[T], iteratee: F)
    requires
        callable_on(iteratee, collection@),
{
    each(collection, iteratee);
}

/// The sequence of outputs of `iteratee` on each element, in order.
pub fn map<T, U, F: Fn(&T) -> U>(collection: &[T], iteratee: F) -> (r: Vec<U>)
    requires
        callable_on(iteratee, collection@),
    ensures
        maps_to(iteratee, collection@, r@),
{
    let n = collection.len();
    let mut r: Vec<U> = Vec::new();
    let mut j: usize = 0;
    while j < n
        invariant
            n == collection@.len(),
            callable_on(iteratee, collection@),
            j <= n,
            r@.len() == j,
            forall|i: int|
                0 <= i < j ==> call_ensures(iteratee, (&collection@[i],), #[trigger] r@[i]),
        decreases n - j,
    {
        r.push(iteratee(&collection[j]));
        j += 1;
    }
    r
}

/// The elements for which `predicate` returned true, in the original order.
pub fn filter<T: Copy, F: Fn(&T) -> bool>(collection: &[T], predicate: F) -> (r: Vec<T>)
    requires
        callable_on(predicate, collection@),
    ensures
        filters_to(predicate, collection@, r@),
{
    let n = collection.len();
    let mut r: Vec<T> = Vec::new();
    let ghost mut keep: Seq<bool> = Seq::empty();
    let mut j: usize = 0;
    while j < n
        invariant
            n == collection@.len(),
            callable_on(predicate, collection@),
            j <= n,
            keep.len() == j,
            forall|i: int|
                0 <= i < j ==> call_ensures(predicate, (&collection@[i],), #[trigger] keep[i]),
            r@ == masked(collection@.subrange(0, j as int), keep),
        decreases n - j,
    {
        let verdict = predicate(&collection[j]);
        proof {
            lemma_masked_push(collection@.subrange(0, j as int), keep, collection@[j as int],
                verdict);
            assert(collection@.subrange(0, j as int).push(collection@[j as int])
                =~= collection@.subrange(0, j + 1));
            keep = keep.push(verdict);
        }
        if verdict {
            r.push(collection[j]);
        }
        j += 1;
    }
    proof {
        assert(collection@.subrange(0, n as int) =~= collection@);
    }
    r
}

/// Left fold: feed each element, front to back, into `iteratee` together
/// with the accumulated value so far.
pub fn reduce<T, U, F: Fn(U, &T) -> U>(collection: &[T], iteratee: F, initial: U) -> (r: U)
    requires
        fold_callable(iteratee, initial, collection@),
    ensures
        folds_to(iteratee, initial, collection@, r),
{
    let n = collection.len();
    let mut acc = initial;
    let mut j: usize = 0;
    while j < n
        invariant
            n == collection@.len(),
            fold_callable(iteratee, initial, collection@),
            j <= n,
            folds_to(iteratee, initial, collection@.subrange(0, j as int), acc),
        decreases n - j,
    {
        let next = iteratee(acc, &collection[j]);
        proof {
            lemma_folds_to_push(iteratee, initial, collection@.subrange(0, j as int),
                collection@[j as int], acc, next);
            assert(collection@.subrange(0, j as int).push(collection@[j as int])
                =~= collection@.subrange(0, j + 1));
        }
        acc = next;
        j += 1;
    }
    proof {
        assert(collection@.subrange(0, n as int) =~= collection@);
    }
    acc
}

/// Right fold: like [`reduce`], but the elements are fed in back to front.
pub fn reduce_right<T, U, F: Fn(U, &T) -> U>(collection: &[T], iteratee: F, initial: U) -> (r: U)
    requires
        fold_callable(iteratee, initial, collection@.reverse()),
    ensures
        folds_to(iteratee, initial, collection@.reverse(), r),
{
    let n = collection.len();
    let mut acc = initial;
    let mut j: usize = n;
    while j > 0
        invariant
            n == collection@.len(),
            fold_callable(iteratee, initial, collection@.reverse()),
            j <= n,
            folds_to(iteratee, initial, collection@.subrange(j as int, n as int).reverse(), acc),
        decreases j,
    {
        j -= 1;
        proof {
            assert(collection@.reverse().subrange(0, n - 1 - j) =~= collection@.subrange(
                j + 1,
                n as int,
            ).reverse());
            assert(folds_to(iteratee, initial, collection@.reverse().subrange(0, n - 1 - j), acc));
            assert(collection@.reverse()[n - 1 - j] == collection@[j as int]);
        }
        let next = iteratee(acc, &collection[j]);
        proof {
            lemma_folds_to_push(iteratee, initial,
                collection@.subrange(j + 1, n as int).reverse(), collection@[j as int], acc,
                next);
            assert(collection@.subrange(j + 1, n as int).reverse().push(collection@[j as int])
                =~= collection@.subrange(j as int, n as int).reverse());
        }
        acc = next;
    }
    proof {
        assert(collection@.subrange(0, n as int) =~= collection@);
    }
    acc
}

/// Call `iteratee` once on each element, back to front.
pub fn for_each_right<T, F: Fn(&T)>(collection: &[T], iteratee: F)
    requires
        callable_on(iteratee, collection@),
{
    let mut j: usize = collection.len();
    while j > 0
        invariant
            callable_on(iteratee, collection@),
            j <= collection@.len(),
        decreases j,
    {
        j -= 1;
        iteratee(&collection[j]);
    }
}

impl<T> Collection<T> {
    /// Call `iteratee` once on each element, front to back.
    pub fn each<F: Fn(&T)>(&self, iteratee: F)
        requires
            callable_on(iteratee, self@),
    {
        each(self.data().as_slice(), iteratee);
    }

    /// The sequence of outputs of `iteratee` on each element, in order.
    pub fn map<U, F: Fn(&T) -> U>(&self, iteratee: F) -> (r: Vec<U>)
        requires
            callable_on(iteratee, self@),
        ensures
            maps_to(iteratee, self@, r@),
    {
        map(self.data().as_slice(), iteratee)
    }

    /// The elements for which `predicate` returned true, in the original order.
    pub fn filter<F: Fn(&T) -> bool>(&self, predicate: F) -> (r: Vec<T>) where T: Copy
        requires
            callable_on(predicate, self@),
        ensures
            filters_to(predicate, self@, r@),
    {
        filter(self.data().as_slice(), predicate)
    }

    /// Left fold over the elements, front to back.
    pub fn reduce<U, F: Fn(U, &T) -> U>(&self, iteratee: F, initial: U) -> (r: U)
        requires
            fold_callable(iteratee, initial, self@),
        ensures
            folds_to(iteratee, initial, self@, r),
    {
        reduce(self.data().as_slice(), iteratee, initial)
    }

    /// Right fold over the elements, back to front.
    pub fn reduce_right<U, F: Fn(U, &T) -> U>(&self, iteratee: F, initial: U) -> (r: U)
        requires
            fold_callable(iteratee, initial, self@.reverse()),
        ensures
            folds_to(iteratee, initial, self@.reverse(), r),
    {
        reduce_right(self.data().as_slice(), iteratee, initial)
    }

    /// Call `iteratee` once on each element, back to front.
    pub fn for_each_right<F: Fn(&T)>(&self, iteratee: F)
        requires
            callable_on(iteratee, self@),
    {
        for_each_right(self.data().as_slice(), iteratee);
    }
}

} // verus!
