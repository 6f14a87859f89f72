//! The core collection type.
//!
//! [`Collection`] is a typed wrapper around `Vec<T>`.  Its view is the
//! sequence of its elements, and every accessor is specified against that
//! view.  The operation families (iteration, queries, transforms, sampling)
//! live in the submodules and are also offered as free functions on slices.

pub mod iteration;
pub mod operation;
pub mod query;
pub mod transform;

use vstd::prelude::*;

verus! {

/// A wrapper around `Vec<T>` whose view is the sequence of its elements.
#[derive(Debug, Clone, PartialEq, Eq)]
pub struct Collection<T> {
    data: Vec<T>,
}

impl<T> View for Collection<T> {
    type V = Seq<T>;

    closed spec fn view(&self) -> Seq<T> {
        self.data@
    }
}

impl<T> Collection<T> {
    /// Wrap a vector of items as a collection.
    pub fn new(data: Vec<T>) -> (r: Self)
        ensures
            r@ == data@,
    {
        Collection { data }
    }

    /// The collection with no elements.
    pub fn empty() -> (r: Self)
        ensures
            r@ == Seq::<T>::empty(),
    {
        Collection { data: Vec::new() }
    }

    /// The number of elements.
    pub fn len(&self) -> (r: usize)
        ensures
            r == self@.len(),
    {
        self.data.len()
    }

    /// Whether the collection holds no elements.
    pub fn is_empty(&self) -> (r: bool)
        ensures
            r == (self@.len() == 0),
    {
        self.data.is_empty()
    }

    /// A reference to the underlying vector.
    pub fn data(&self) -> (r: &Vec<T>)
        ensures
            r@ == self@,
    {
        &self.data
    }

    /// A mutable reference to the underlying vector.
    pub fn data_mut(&mut self) -> (r: &mut Vec<T>)
        ensures
            r@ == old(self)@,
            final(self)@ == final(r)@,
    {
        &mut self.data
    }

    /// The element at `index`, or `None` when out of range.
    pub fn get(&self, index: usize) -> (r: Option<&T>)
        ensures
            index < self@.len() ==> (r matches Some(x) && *x == self@[index as int]),
            index >= self@.len() ==> r is None,
    {
        if index < self.data.len() {
            Some(&self.data[index])
        } else {
            None
        }
    }

    /// A mutable reference to the element at `index`, or `None` when out of range.
    pub fn get_mut(&mut self, index: usize) -> (r: Option<&mut T>)
        ensures
            index < old(self)@.len() ==> (r matches Some(x) && *x == old(self)@[index as int]
                && final(self)@ == old(self)@.update(index as int, *final(x))),
            index >= old(self)@.len() ==> r is None && final(self)@ == old(self)@,
    {
        if index < self.data.len() {
            Some(&mut self.data[index])
        } else {
            None
        }
    }

    /// The first element, or `None` when the collection is empty.
    pub fn first(&self) -> (r: Option<&T>)
        ensures
            self@.len() > 0 ==> (r matches Some(x) && *x == self@[0]),
            self@.len() == 0 ==> r is None,
    {
        if self.data.len() > 0 {
            Some(&self.data[0])
        } else {
            None
        }
    }

    /// The last element, or `None` when the collection is empty.
    pub fn last(&self) -> (r: Option<&T>)
        ensures
            self@.len() > 0 ==> (r matches Some(x) && *x == self@[self@.len() - 1]),
            self@.len() == 0 ==> r is None,
    {
        if self.data.len() > 0 {
            Some(&self.data[self.data.len() - 1])
        } else {
            None
        }
    }

    /// Give the underlying vector back.
    pub fn into_vec(self) -> (r: Vec<T>)
        ensures
            r@ == self@,
    {
        self.data
    }

    /// Consume the collection into an iterator over its elements.
    pub fn into_iter(self) -> (r: std::vec::IntoIter<T>)
        ensures
            r == vstd::std_specs::vec::spec_into_iter(self.into_vec_spec()),
    {
        self.data.into_iter()
    }

    /// An iterator over references to the elements.
    pub fn iter(&self) -> (r: std::slice::Iter<'_, T>)
        ensures
            vstd::std_specs::iter::IteratorSpec::remaining(&r) == self@.as_ref(),
    {
        self.data.as_slice().iter()
    }

    /// The underlying vector, at the specification level.
    pub closed spec fn into_vec_spec(self) -> Vec<T> {
        self.data
    }
}

impl<T> From<Vec<T>> for Collection<T> {
    fn from(data: Vec<T>) -> (r: Self)
        ensures
            r@ == data@,
    {
        Collection { data }
    }
}

impl<T> vstd::std_specs::convert::FromSpecImpl<Vec<T>> for Collection<T> {
    open spec fn obeys_from_spec() -> bool {
        true
    }

    closed spec fn from_spec(data: Vec<T>) -> Self {
        Collection { data }
    }
}

impl<T> From<Collection<T>> for Vec<T> {
    fn from(collection: Collection<T>) -> (r: Self)
        ensures
            r@ == collection@,
    {
        collection.data
    }
}

impl<T> vstd::std_specs::convert::FromSpecImpl<Collection<T>> for Vec<T> {
    open spec fn obeys_from_spec() -> bool {
        true
    }

    closed spec fn from_spec(collection: Collection<T>) -> Self {
        collection.data
    }
}

impl<T> core::ops::Index<usize> for Collection<T> {
    type Output = T;

    fn index(&self, index: usize) -> (r: &T)
        ensures
            *r == self@[index as int],
    {
        &self.data[index]
    }
}

impl<T> vstd::std_specs::core::IndexSpecImpl<usize> for Collection<T> {
    open spec fn index_req(&self, index: &usize) -> bool {
        *index < self@.len()
    }
}

} // verus!
