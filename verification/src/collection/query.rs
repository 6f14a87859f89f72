//! Searching and testing: `find`, `includes`, `every`, `some`, `count_by`,
//! `partition`.

use std::collections::HashMap;
use vstd::prelude::*;

use vstd::std_specs::cmp::PartialEqSpec;

use crate::collection::Collection;
use crate::specs::callable_on;
use crate::specs::lemma_masked_push;
use crate::specs::masked;
use crate::specs::maps_to;

verus! {

broadcast use vstd::std_specs::hash::group_hash_axioms;

/// `p` returned `false` on every element of `s` before position `i`.
pub open spec fn rejected_before<T, P: Fn(&T) -> bool>(p: P, s: Seq<T>, i: int) -> bool {
    forall|j: int| 0 <= j < i ==> call_ensures(p, (&s[j],), false)
}

/// `p` returned `false` on every element of `s` after position `i`.
pub open spec fn rejected_after<T, P: Fn(&T) -> bool>(p: P, s: Seq<T>, i: int) -> bool {
    forall|j: int| i < j < s.len() ==> call_ensures(p, (&s[j],), false)
}

/// The number of occurrences of each key, walking `keys` left to right.
pub open spec fn counts_of<K>(keys: Seq<K>) -> Map<K, int>
    decreases keys.len(),
{
    if keys.len() == 0 {
        Map::empty()
    } else {
        let m = counts_of(keys.drop_last());
        let k = keys.last();
        m.insert(k, if m.contains_key(k) { m[k] + 1 } else { 1 })
    }
}

/// The exec map `m` holds exactly the counts `c`.
pub open spec fn counts_match<K>(m: Map<K, usize>, c: Map<K, int>) -> bool {
    &&& m.dom() == c.dom()
    &&& forall|k: K| c.contains_key(k) ==> (#[trigger] m[k]) as int == c[k]
}

/// Every count is at least one and at most the number of keys walked.
proof fn lemma_counts_of_bound<K>(keys: Seq<K>)
    ensures
        forall|k: K|
            #[trigger] counts_of(keys).contains_key(k) ==> 1 <= counts_of(keys)[k] <= keys.len(),
    decreases keys.len(),
{
    if keys.len() > 0 {
        lemma_counts_of_bound(keys.drop_last());
        let prior = counts_of(keys.drop_last());
        let k0 = keys.last();
        assert forall|k: K|
            #[trigger] counts_of(keys).contains_key(k) implies 1 <= counts_of(keys)[k]
            <= keys.len() by {
            if k == k0 {
                if prior.contains_key(k0) {
                    assert(prior[k0] <= keys.len() - 1);
                }
            } else {
                assert(counts_of(keys)[k] == prior[k]);
                assert(prior.contains_key(k));
            }
        }
    }
}

/// The first element on which `predicate` returns true, or `None` when it
/// rejects every element.
pub fn find<T, F: Fn(&T) -> bool>(collection: &[T], predicate: F) -> (r: Option<&T>)
    requires
        callable_on(predicate, collection@),
    ensures
        (r matches Some(x) ==> exists|i: int|
            {
                &&& 0 <= i < collection@.len()
                &&& *x == collection@[i]
                &&& call_ensures(predicate, (&collection@[i],), true)
                &&& rejected_before(predicate, collection@, i)
            }),
        r is None ==> rejected_before(predicate, collection@, collection@.len() as int),
{
    let n = collection.len();
    let mut j: usize = 0;
    while j < n
        invariant
            n == collection@.len(),
            callable_on(predicate, collection@),
            j <= n,
            rejected_before(predicate, collection@, j as int),
        decreases n - j,
    {
        if predicate(&collection[j]) {
            return Some(&collection[j]);
        }
        j += 1;
    }
    None
}

/// The last element on which `predicate` returns true, or `None` when it
/// rejects every element.
pub fn find_last<T, F: Fn(&T) -> bool>(collection: &[T], predicate: F) -> (r: Option<&T>)
    requires
        callable_on(predicate, collection@),
    ensures
        (r matches Some(x) ==> exists|i: int|
            {
                &&& 0 <= i < collection@.len()
                &&& *x == collection@[i]
                &&& call_ensures(predicate, (&collection@[i],), true)
                &&& rejected_after(predicate, collection@, i)
            }),
        r is None ==> rejected_after(predicate, collection@, -1),
{
    let n = collection.len();
    let mut j: usize = n;
    while j > 0
        invariant
            n == collection@.len(),
            callable_on(predicate, collection@),
            j <= n,
            rejected_after(predicate, collection@, j - 1),
        decreases j,
    {
        j -= 1;
        if predicate(&collection[j]) {
            return Some(&collection[j]);
        }
    }
    None
}

/// Whether `value` occurs in the collection, by `==`.
pub fn includes<T: PartialEq>(collection: &[T], value: &T) -> (r: bool)
    ensures
        T::obeys_eq_spec() ==> (r <==> exists|i: int|
            0 <= i < collection@.len() && (#[trigger] collection@[i]).eq_spec(value)),
{
    let n = collection.len();
    let mut j: usize = 0;
    while j < n
        invariant
            n == collection@.len(),
            j <= n,
            T::obeys_eq_spec() ==> forall|k: int|
                0 <= k < j ==> !(#[trigger] collection@[k]).eq_spec(value),
        decreases n - j,
    {
        if collection[j] == *value {
            return true;
        }
        j += 1;
    }
    false
}

/// Whether `predicate` returns true on every element.  The scan stops at
/// the first rejection.
pub fn every<T, F: Fn(&T) -> bool>(collection: &[T], predicate: F) -> (r: bool)
    requires
        callable_on(predicate, collection@),
    ensures
        r ==> forall|i: int|
            0 <= i < collection@.len() ==> call_ensures(predicate, (&collection@[i],), true),
        !r ==> exists|i: int|
            {
                &&& 0 <= i < collection@.len()
                &&& call_ensures(predicate, (&collection@[i],), false)
            },
{
    let n = collection.len();
    let mut j: usize = 0;
    while j < n
        invariant
            n == collection@.len(),
            callable_on(predicate, collection@),
            j <= n,
            forall|k: int| 0 <= k < j ==> call_ensures(predicate, (&collection@[k],), true),
        decreases n - j,
    {
        if !predicate(&collection[j]) {
            return false;
        }
        j += 1;
    }
    true
}

/// Whether `predicate` returns true on some element.  The scan stops at
/// the first acceptance.
pub fn some<T, F: Fn(&T) -> bool>(collection: &[T], predicate: F) -> (r: bool)
    requires
        callable_on(predicate, collection@),
    ensures
        r ==> exists|i: int|
            {
                &&& 0 <= i < collection@.len()
                &&& call_ensures(predicate, (&collection@[i],), true)
            },
        !r ==> forall|i: int|
            0 <= i < collection@.len() ==> call_ensures(predicate, (&collection@[i],), false),
{
    let n = collection.len();
    let mut j: usize = 0;
    while j < n
        invariant
            n == collection@.len(),
            callable_on(predicate, collection@),
            j <= n,
            forall|k: int| 0 <= k < j ==> call_ensures(predicate, (&collection@[k],), false),
        decreases n - j,
    {
        if predicate(&collection[j]) {
            return true;
        }
        j += 1;
    }
    false
}

/// How often each key, computed by `iteratee` from each element, occurs.
///
/// The key type must fit the hash table's key model, as the integer types
/// do; this is what makes the table's view trustworthy.
pub fn count_by<T, K: std::hash::Hash + Eq, F: Fn(&T) -> K>(
    collection: &[T],
    iteratee: F,
) -> (r: HashMap<K, usize>)
    requires
        callable_on(iteratee, collection@),
        vstd::std_specs::hash::obeys_key_model::<K>(),
    ensures
        exists|keys: Seq<K>|
            {
                &&& #[trigger] maps_to(iteratee, collection@, keys)
                &&& counts_match(r@, counts_of(keys))
            },
{
    let n = collection.len();
    let mut counts: HashMap<K, usize> = HashMap::new();
    let ghost mut keys: Seq<K> = Seq::empty();
    let mut j: usize = 0;
    while j < n
        invariant
            n == collection@.len(),
            callable_on(iteratee, collection@),
            vstd::std_specs::hash::obeys_key_model::<K>(),
            j <= n,
            keys.len() == j,
            forall|i: int|
                0 <= i < j ==> call_ensures(iteratee, (&collection@[i],), #[trigger] keys[i]),
            counts_match(counts@, counts_of(keys)),
            forall|k: K| #[trigger] counts@.contains_key(k) ==> counts@[k] <= j,
        decreases n - j,
    {
        let key = iteratee(&collection[j]);
        let previous = counts.remove(&key);
        let next = match previous {
            Some(c) => c + 1,
            None => 1,
        };
        counts.insert(key, next);
        proof {
            let prior = keys;
            keys = keys.push(key);
            assert(keys.drop_last() =~= prior);
            let c2 = counts_of(keys);
            assert(c2 == counts_of(prior).insert(
                key,
                if counts_of(prior).contains_key(key) {
                    counts_of(prior)[key] + 1
                } else {
                    1
                },
            ));
            assert(counts@.dom() =~= c2.dom());
        }
        j += 1;
    }
    proof {
        assert(maps_to(iteratee, collection@, keys));
        assert(counts_match(counts@, counts_of(keys)));
    }
    counts
}

/// Split the elements in two: those `predicate` accepts, then those it
/// rejects, each group in its original order.
pub fn partition<T: Copy, F: Fn(&T) -> bool>(collection: &[T], predicate: F) -> (r: (
    Vec<T>,
    Vec<T>,
))
    requires
        callable_on(predicate, collection@),
    ensures
        exists|keep: Seq<bool>|
            {
                &&& keep.len() == collection@.len()
                &&& (forall|i: int|
                    0 <= i < collection@.len() ==> call_ensures(
                        predicate,
                        (&collection@[i],),
                        #[trigger] keep[i],
                    ))
                &&& r.0@ == masked(collection@, keep)
                &&& r.1@ == masked(collection@, keep.map_values(|b: bool| !b))
            },
{
    let n = collection.len();
    let mut truthy: Vec<T> = Vec::new();
    let mut falsy: Vec<T> = Vec::new();
    let ghost mut keep: Seq<bool> = Seq::empty();
    let mut j: usize = 0;
    while j < n
        invariant
            n == collection@.len(),
            callable_on(predicate, collection@),
            j <= n,
            keep.len() == j,
            forall|i: int|
                0 <= i < j ==> call_ensures(predicate, (&collection@[i],), #[trigger] keep[i]),
            truthy@ == masked(collection@.subrange(0, j as int), keep),
            falsy@ == masked(
                collection@.subrange(0, j as int),
                keep.map_values(|b: bool| !b),
            ),
        decreases n - j,
    {
        let verdict = predicate(&collection[j]);
        proof {
            lemma_masked_push(collection@.subrange(0, j as int), keep, collection@[j as int],
                verdict);
            lemma_masked_push(collection@.subrange(0, j as int), keep.map_values(|b: bool| !b),
                collection@[j as int], !verdict);
            assert(collection@.subrange(0, j as int).push(collection@[j as int])
                =~= collection@.subrange(0, j + 1));
            assert(keep.map_values(|b: bool| !b).push(!verdict) =~= keep.push(
                verdict,
            ).map_values(|b: bool| !b));
            keep = keep.push(verdict);
        }
        if verdict {
            truthy.push(collection[j]);
        } else {
            falsy.push(collection[j]);
        }
        j += 1;
    }
    proof {
        assert(collection@.subrange(0, n as int) =~= collection@);
    }
    (truthy, falsy)
}

impl<T> Collection<T> {
    /// The first element on which `predicate` returns true.
    pub fn find<F: Fn(&T) -> bool>(&self, predicate: F) -> (r: Option<&T>)
        requires
            callable_on(predicate, self@),
        ensures
            (r matches Some(x) ==> exists|i: int|
                {
                    &&& 0 <= i < self@.len()
                    &&& *x == self@[i]
                    &&& call_ensures(predicate, (&self@[i],), true)
                    &&& rejected_before(predicate, self@, i)
                }),
            r is None ==> rejected_before(predicate, self@, self@.len() as int),
    {
        find(self.data().as_slice(), predicate)
    }

    /// The last element on which `predicate` returns true.
    pub fn find_last<F: Fn(&T) -> bool>(&self, predicate: F) -> (r: Option<&T>)
        requires
            callable_on(predicate, self@),
        ensures
            (r matches Some(x) ==> exists|i: int|
                {
                    &&& 0 <= i < self@.len()
                    &&& *x == self@[i]
                    &&& call_ensures(predicate, (&self@[i],), true)
                    &&& rejected_after(predicate, self@, i)
                }),
            r is None ==> rejected_after(predicate, self@, -1),
    {
        find_last(self.data().as_slice(), predicate)
    }

    /// Whether `value` occurs in the collection, by `==`.
    pub fn includes(&self, value: &T) -> (r: bool) where T: PartialEq
        ensures
            T::obeys_eq_spec() ==> (r <==> exists|i: int|
                0 <= i < self@.len() && (#[trigger] self@[i]).eq_spec(value)),
    {
        includes(self.data().as_slice(), value)
    }

    /// Whether `predicate` returns true on every element.
    pub fn every<F: Fn(&T) -> bool>(&self, predicate: F) -> (r: bool)
        requires
            callable_on(predicate, self@),
        ensures
            r ==> forall|i: int|
                0 <= i < self@.len() ==> call_ensures(predicate, (&self@[i],), true),
            !r ==> exists|i: int|
                {
                    &&& 0 <= i < self@.len()
                    &&& call_ensures(predicate, (&self@[i],), false)
                },
    {
        every(self.data().as_slice(), predicate)
    }

    /// Whether `predicate` returns true on some element.
    pub fn some<F: Fn(&T) -> bool>(&self, predicate: F) -> (r: bool)
        requires
            callable_on(predicate, self@),
        ensures
            r ==> exists|i: int|
                {
                    &&& 0 <= i < self@.len()
                    &&& call_ensures(predicate, (&self@[i],), true)
                },
            !r ==> forall|i: int|
                0 <= i < self@.len() ==> call_ensures(predicate, (&self@[i],), false),
    {
        some(self.data().as_slice(), predicate)
    }

    /// How often each key, computed by `iteratee` from each element, occurs.
    pub fn count_by<K: std::hash::Hash + Eq, F: Fn(&T) -> K>(&self, iteratee: F) -> (r: HashMap<
        K,
        usize,
    >)
        requires
            callable_on(iteratee, self@),
            vstd::std_specs::hash::obeys_key_model::<K>(),
        ensures
            exists|keys: Seq<K>|
                {
                    &&& #[trigger] maps_to(iteratee, self@, keys)
                    &&& counts_match(r@, counts_of(keys))
                },
    {
        count_by(self.data().as_slice(), iteratee)
    }

    /// Split the elements in two by `predicate`.
    pub fn partition<F: Fn(&T) -> bool>(&self, predicate: F) -> (r: (Vec<T>, Vec<T>)) where
        T: Copy,

        requires
            callable_on(predicate, self@),
        ensures
            exists|keep: Seq<bool>|
                {
                    &&& keep.len() == self@.len()
                    &&& (forall|i: int|
                        0 <= i < self@.len() ==> call_ensures(
                            predicate,
                            (&self@[i],),
                            #[trigger] keep[i],
                        ))
                    &&& r.0@ == masked(self@, keep)
                    &&& r.1@ == masked(self@, keep.map_values(|b: bool| !b))
                },
    {
        partition(self.data().as_slice(), predicate)
    }
}

} // verus!
