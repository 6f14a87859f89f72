//! Executors that consume an assembled chain and produce its final sequence.

use vstd::prelude::*;

use crate::chain::AsyncChain;
use crate::chain::AsyncOperation;
use crate::chain::Chain;
use crate::chain::chain_allows;

verus! {

/// Consumes a [`Chain`] and produces its final sequence.
pub struct ChainExecutor<T, F, P> {
    chain: Chain<T, F, P>,
}

impl<T, F: Fn(&T) -> T, P: Fn(&T) -> bool> ChainExecutor<T, F, P> {
    /// The chain held by the executor.
    pub closed spec fn chain(self) -> Chain<T, F, P> {
        self.chain
    }

    /// Wrap a chain for execution.
    pub fn new(chain: Chain<T, F, P>) -> (r: Self)
        ensures
            r.chain() == chain,
    {
        ChainExecutor { chain }
    }

    /// Apply every operation, in append order, to the source sequence and
    /// return the final sequence.
    pub fn execute(self) -> (r: Vec<T>)
        requires
            self.chain().wf(),
        ensures
            chain_allows(self.chain().ops(), self.chain().source(), r@),
    {
        let ChainExecutor { chain } = self;
        chain.value()
    }
}

/// Holds an [`AsyncChain`] for a host executor.  Driving the deferred
/// computations needs an asynchronous runtime, which the verified library
/// does not contain; the host obtains the parts through
/// [`AsyncChainExecutor::into_chain`].
pub struct AsyncChainExecutor<T, F, P> {
    chain: AsyncChain<T, F, P>,
}

impl<T, F, P> AsyncChainExecutor<T, F, P> {
    /// The chain held by the executor.
    pub closed spec fn chain(self) -> AsyncChain<T, F, P> {
        self.chain
    }

    /// Wrap an asynchronous chain for execution.
    pub fn new(chain: AsyncChain<T, F, P>) -> (r: Self)
        ensures
            r.chain() == chain,
    {
        AsyncChainExecutor { chain }
    }

    /// Hand the chain back to a host executor.
    pub fn into_chain(self) -> (r: AsyncChain<T, F, P>)
        ensures
            r == self.chain(),
    {
        self.chain
    }
}

} // verus!
