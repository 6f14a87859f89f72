//! Builders that assemble operation chains from an owned vector.

use vstd::prelude::*;

use crate::chain::AsyncChain;
use crate::chain::AsyncOperation;
use crate::chain::Chain;
use crate::chain::Operation;
use crate::chain::ops_callable;

verus! {

/// Assembles a [`Chain`] step by step from an owned vector.
pub struct ChainBuilder<T, F, P> {
    data: Vec<T>,
    operations: Vec<Operation<F, P>>,
}

impl<T, F: Fn(&T) -> T, P: Fn(&T) -> bool> ChainBuilder<T, F, P> {
    /// The source sequence the builder was given.
    pub closed spec fn source(self) -> Seq<T> {
        self.data@
    }

    /// The operations added so far, oldest first.
    pub closed spec fn ops(self) -> Seq<Operation<F, P>> {
        self.operations@
    }

    /// Every stored closure accepts every argument.
    pub open spec fn wf(self) -> bool {
        ops_callable::<T, F, P>(self.ops())
    }

    /// A new builder over `data`, with no operations yet.
    pub fn new(data: Vec<T>) -> (r: Self)
        ensures
            r.source() == data@,
            r.ops() == Seq::<Operation<F, P>>::empty(),
            r.wf(),
    {
        ChainBuilder { data, operations: Vec::new() }
    }

    /// Add a map step.  The mapper must accept every element.
    pub fn map(self, mapper: F) -> (r: Self)
        requires
            forall|x: T| call_requires(mapper, (&x,)),
        ensures
            r.source() == self.source(),
            r.ops() == self.ops().push(Operation::<F, P>::MapStep(mapper)),
            self.wf() ==> r.wf(),
    {
        let mut b = self;
        b.operations.push(Operation::MapStep(mapper));
        b
    }

    /// Add a filter step.  The predicate must accept every element.
    pub fn filter(self, predicate: P) -> (r: Self)
        requires
            forall|x: T| call_requires(predicate, (&x,)),
        ensures
            r.source() == self.source(),
            r.ops() == self.ops().push(Operation::<F, P>::Filter(predicate)),
            self.wf() ==> r.wf(),
    {
        let mut b = self;
        b.operations.push(Operation::Filter(predicate));
        b
    }

    /// Turn the builder into a chain over the same source and operations.
    pub fn build(self) -> (r: Chain<T, F, P>)
        ensures
            r.source() == self.source(),
            r.ops() == self.ops(),
    {
        let ChainBuilder { data, operations } = self;
        Chain { data, operations }
    }
}

/// Assembles an [`AsyncChain`] step by step from an owned vector.
pub struct AsyncChainBuilder<T, F, P> {
    data: Vec<T>,
    operations: Vec<AsyncOperation<F, P>>,
}

impl<T, F, P> AsyncChainBuilder<T, F, P> {
    /// The source sequence the builder was given.
    pub closed spec fn source(self) -> Seq<T> {
        self.data@
    }

    /// The operations added so far, oldest first.
    pub closed spec fn ops(self) -> Seq<AsyncOperation<F, P>> {
        self.operations@
    }

    /// A new builder over `data`, with no operations yet.
    pub fn new(data: Vec<T>) -> (r: Self)
        ensures
            r.source() == data@,
            r.ops() == Seq::<AsyncOperation<F, P>>::empty(),
    {
        AsyncChainBuilder { data, operations: Vec::new() }
    }

    /// Add an asynchronous map step.
    pub fn map_async(self, mapper: F) -> (r: Self)
        ensures
            r.source() == self.source(),
            r.ops() == self.ops().push(AsyncOperation::<F, P>::MapAsync(mapper)),
    {
        let mut b = self;
        b.operations.push(AsyncOperation::MapAsync(mapper));
        b
    }

    /// Add an asynchronous filter step.
    pub fn filter_async(self, predicate: P) -> (r: Self)
        ensures
            r.source() == self.source(),
            r.ops() == self.ops().push(AsyncOperation::<F, P>::FilterAsync(predicate)),
    {
        let mut b = self;
        b.operations.push(AsyncOperation::FilterAsync(predicate));
        b
    }

    /// Turn the builder into an asynchronous chain.
    pub fn build(self) -> (r: AsyncChain<T, F, P>)
        ensures
            r.source() == self.source(),
            r.ops() == self.ops(),
    {
        let AsyncChainBuilder { data, operations } = self;
        AsyncChain { data, operations }
    }
}

} // verus!
