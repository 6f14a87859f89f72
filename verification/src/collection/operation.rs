//! Whole-collection operations: `size`, `shuffle`, `sample`, `sample_size`.
//!
//! The random choices are drawn through the `rand` crate behind trusted
//! wrappers; everything a caller can rely on — that a shuffle is a
//! permutation, that a sample is an element of the collection, that a sample
//! of size `n` has `min(n, len)` elements — is stated over every possible
//! outcome and proved here.

use vstd::prelude::*;

use rand::rngs::ThreadRng;
use rand::seq::SliceRandom;

use crate::collection::Collection;

verus! {

/// A prefix of a sequence holds each value at most as often as the whole
/// sequence does.
proof fn lemma_prefix_submultiset<T>(s: Seq<T>, n: int)
    requires
        0 <= n <= s.len(),
    ensures
        forall|x: T|
            s.subrange(0, n).to_multiset().count(x) <= #[trigger] s.to_multiset().count(x),
{
    let front = s.subrange(0, n);
    let back = s.subrange(n, s.len() as int);
    assert(s =~= front + back);
    vstd::seq_lib::lemma_multiset_commutative(front, back);
}

broadcast use vstd::seq_lib::group_to_multiset_ensures;

/// The thread-local random number generator of the `rand` crate.
#[verifier::external_type_specification]
#[verifier::external_body]
pub struct ExThreadRng(ThreadRng);

/// Relies on rand::thread_rng: hands out the thread-local generator.
#[verifier::external_body]
fn rng_handle() -> ThreadRng {
    rand::thread_rng()
}

/// Relies on rand::seq::SliceRandom::shuffle for slices: a Fisher-Yates
/// pass that swaps elements in place, so the result holds exactly the same
/// elements, whatever values the generator produced.
#[verifier::external_body]
fn shuffle_in_place<T>(v: &mut Vec<T>, rng: &mut ThreadRng)
    ensures
        final(v)@.to_multiset() == old(v)@.to_multiset(),
{
    v.as_mut_slice().shuffle(rng);
}

/// Relies on rand::seq::SliceRandom::choose for slices: `None` exactly on
/// an empty slice, otherwise a reference to the element at some generated
/// in-range index.
#[verifier::external_body]
fn choose_element<'a, T>(v: &'a [T], rng: &mut ThreadRng) -> (r: Option<&'a T>)
    ensures
        r is None <==> v@.len() == 0,
        r matches Some(x) ==> exists|i: int| 0 <= i < v@.len() && *x == v@[i],
{
    v.choose(rng)
}

/// The number of elements.
pub fn size<T>(collection: &[T]) -> (r: usize)
    ensures
        r == collection@.len(),
{
    collection.len()
}

/// A copy of the collection with its elements in a random order: the result
/// holds exactly the same elements, with the same multiplicities.
pub fn shuffle<T: Copy>(collection: &[T]) -> (r: Vec<T>)
    ensures
        r@.to_multiset() == collection@.to_multiset(),
        r@.len() == collection@.len(),
{
    let mut shuffled = vstd::slice::slice_to_vec(collection);
    let mut rng = rng_handle();
    shuffle_in_place(&mut shuffled, &mut rng);
    proof {
        assert(shuffled@.to_multiset().len() == shuffled@.len());
        assert(collection@.to_multiset().len() == collection@.len());
    }
    shuffled
}

/// A random element of the collection, or `None` when it is empty.
pub fn sample<T>(collection: &[T]) -> (r: Option<&T>)
    ensures
        collection@.len() == 0 ==> r is None,
        collection@.len() > 0 ==> (r matches Some(x) && exists|i: int|
            0 <= i < collection@.len() && *x == collection@[i]),
{
    if collection.is_empty() {
        return None;
    }
    let mut rng = rng_handle();
    choose_element(collection, &mut rng)
}

/// `min(n, len)` distinct positions' worth of random elements: a random
/// permutation of the collection, cut to length `n`.  Every returned
/// element occurs in the collection, and no value is returned more often
/// than the collection holds it, so the sampled positions are distinct.
pub fn sample_size<T: Copy>(collection: &[T], n: usize) -> (r: Vec<T>)
    ensures
        r@.len() == if n as int <= collection@.len() {
            n as int
        } else {
            collection@.len() as int
        },
        forall|i: int| 0 <= i < r@.len() ==> collection@.contains(#[trigger] r@[i]),
        forall|x: T|
            r@.to_multiset().count(x) <= #[trigger] collection@.to_multiset().count(x),
{
    if collection.is_empty() || n == 0 {
        let r: Vec<T> = Vec::new();
        return r;
    }
    let mut samples = vstd::slice::slice_to_vec(collection);
    let mut rng = rng_handle();
    shuffle_in_place(&mut samples, &mut rng);
    proof {
        assert(samples@.to_multiset().len() == samples@.len());
        assert forall|i: int|
            0 <= i < samples@.len() implies collection@.contains(#[trigger] samples@[i]) by {
            assert(samples@.contains(samples@[i]));
            assert(samples@.to_multiset().count(samples@[i]) > 0);
            assert(collection@.to_multiset().count(samples@[i]) > 0);
        }
    }
    let ghost before = samples@;
    samples.truncate(n);
    proof {
        assert forall|i: int|
            0 <= i < samples@.len() implies collection@.contains(#[trigger] samples@[i]) by {
            assert(samples@[i] == before[i]);
        }
        if n as int <= before.len() {
            lemma_prefix_submultiset(before, n as int);
            assert(samples@ =~= before.subrange(0, n as int));
        } else {
            assert(samples@ =~= before);
        }
    }
    samples
}

impl<T> Collection<T> {
    /// The number of elements.
    pub fn size(&self) -> (r: usize)
        ensures
            r == self@.len(),
    {
        size(self.data().as_slice())
    }

    /// A copy of the collection with its elements in a random order.
    pub fn shuffle(&self) -> (r: Vec<T>) where T: Copy
        ensures
            r@.to_multiset() == self@.to_multiset(),
            r@.len() == self@.len(),
    {
        shuffle(self.data().as_slice())
    }

    /// A random element, or `None` when the collection is empty.
    pub fn sample(&self) -> (r: Option<&T>)
        ensures
            self@.len() == 0 ==> r is None,
            self@.len() > 0 ==> (r matches Some(x) && exists|i: int|
                0 <= i < self@.len() && *x == self@[i]),
    {
        sample(self.data().as_slice())
    }

    /// `min(n, len)` random elements at distinct positions.
    pub fn sample_size(&self, n: usize) -> (r: Vec<T>) where T: Copy
        ensures
            r@.len() == if n as int <= self@.len() {
                n as int
            } else {
                self@.len() as int
            },
            forall|i: int| 0 <= i < r@.len() ==> self@.contains(#[trigger] r@[i]),
            forall|x: T| r@.to_multiset().count(x) <= #[trigger] self@.to_multiset().count(x),
    {
        sample_size(self.data().as_slice(), n)
    }
}

} // verus!
