//! The fluent chaining system.
//!
//! A [`Chain`] owns a copy of a source sequence together with an ordered list
//! of deferred [`Operation`]s.  Builder calls append one operation each and
//! return the chain; a single terminal call ([`Chain::value`],
//! [`Chain::collect`] or [`Chain::into_collection`]) consumes the chain and
//! applies the operations in append order.
//!
//! The meaning of a chain is given by [`chain_allows`]: the relation between
//! a source sequence, a list of operations, and an acceptable result.  The
//! terminal calls ensure this relation, and the lemmas in [`laws`] derive
//! the classic algebraic facts (length preservation under maps, filtering,
//! take/skip windows, reversal as an involution) from it.
//!
//! Because the stored closures are ordinary values, a chain is generic over
//! one mapper type `F` and one predicate type `P`; a `Box<dyn Fn>` cannot be
//! reasoned about, so heterogeneous closure lists are not offered.

pub mod builder;
pub mod executor;
pub mod laws;

use vstd::prelude::*;

use crate::collection::Collection;
use crate::specs::filters_to;
use crate::specs::lemma_masked_push;
use crate::specs::masked;
use crate::specs::maps_to;
use crate::specs::skipped;
use crate::specs::taken;

verus! {

/// One deferred step of a chain.
pub enum Operation<F, P> {
    /// Replace every element by an output of the stored mapper.
    MapStep(F),
    /// Keep the elements the stored predicate accepts.
    Filter(P),
    /// Keep the first `n` elements.
    Take(usize),
    /// Drop the first `n` elements.
    Skip(usize),
    /// Reverse the element order.
    Reverse,
}

/// One deferred step of an asynchronous chain.  The mapper and predicate
/// types return deferred computations and are opaque here; they are driven
/// by an executor outside the verified library.
pub enum AsyncOperation<F, P> {
    /// Replace every element by the awaited output of the stored mapper.
    MapAsync(F),
    /// Keep the elements whose awaited verdict is true.
    FilterAsync(P),
    /// Keep the first `n` elements (synchronous).
    Take(usize),
    /// Drop the first `n` elements (synchronous).
    Skip(usize),
    /// Reverse the element order (synchronous).
    Reverse,
}

/// `op` may be applied to any intermediate sequence: its closure, if any,
/// accepts every argument.
pub open spec fn op_callable<T, F: Fn(&T) -> T, P: Fn(&T) -> bool>(op: Operation<F, P>) -> bool {
    match op {
        Operation::MapStep(f) => forall|x: T| call_requires(f, (&x,)),
        Operation::Filter(p) => forall|x: T| call_requires(p, (&x,)),
        Operation::Take(_) => true,
        Operation::Skip(_) => true,
        Operation::Reverse => true,
    }
}

/// Every operation of `ops` may be applied to any intermediate sequence.
pub open spec fn ops_callable<T, F: Fn(&T) -> T, P: Fn(&T) -> bool>(
    ops: Seq<Operation<F, P>>,
) -> bool {
    forall|k: int| 0 <= k < ops.len() ==> op_callable::<T, F, P>(#[trigger] ops[k])
}

/// `out` is an acceptable result of applying the single operation `op` to `inp`.
pub open spec fn op_allows<T, F: Fn(&T) -> T, P: Fn(&T) -> bool>(
    op: Operation<F, P>,
    inp: Seq<T>,
    out: Seq<T>,
) -> bool {
    match op {
        Operation::MapStep(f) => maps_to(f, inp, out),
        Operation::Filter(p) => filters_to(p, inp, out),
        Operation::Take(n) => out == taken(inp, n),
        Operation::Skip(n) => out == skipped(inp, n),
        Operation::Reverse => out == inp.reverse(),
    }
}

/// `out` is an acceptable result of applying the operations of `ops`, in
/// order, starting from `inp`.
pub open spec fn chain_allows<T, F: Fn(&T) -> T, P: Fn(&T) -> bool>(
    ops: Seq<Operation<F, P>>,
    inp: Seq<T>,
    out: Seq<T>,
) -> bool
    decreases ops.len(),
{
    if ops.len() == 0 {
        out == inp
    } else {
        exists|mid: Seq<T>|
            #[trigger] op_allows(ops[0], inp, mid) && chain_allows(ops.drop_first(), mid, out)
    }
}

/// The result of evaluating an asynchronous chain, as a function of the
/// awaited values: `map_outputs` holds one output row per `MapAsync` step
/// and `verdicts` one verdict row per `FilterAsync` step, each row as long
/// as the sequence the step received; the synchronous steps transform the
/// sequence as their synchronous counterparts do.  Given the rows, the
/// result is completely determined, so a host executor that awaits the rows
/// and applies [`select_by_verdicts`], [`apply_take`], [`apply_skip`] and
/// [`apply_reverse`] realises exactly this relation.
pub open spec fn async_chain_allows<T, F, P>(
    ops: Seq<AsyncOperation<F, P>>,
    inp: Seq<T>,
    map_outputs: Seq<Seq<T>>,
    verdicts: Seq<Seq<bool>>,
    out: Seq<T>,
) -> bool
    decreases ops.len(),
{
    if ops.len() == 0 {
        out == inp && map_outputs.len() == 0 && verdicts.len() == 0
    } else {
        match ops[0] {
            AsyncOperation::MapAsync(_) => {
                &&& map_outputs.len() > 0
                &&& map_outputs[0].len() == inp.len()
                &&& async_chain_allows(
                    ops.drop_first(),
                    map_outputs[0],
                    map_outputs.drop_first(),
                    verdicts,
                    out,
                )
            },
            AsyncOperation::FilterAsync(_) => {
                &&& verdicts.len() > 0
                &&& verdicts[0].len() == inp.len()
                &&& async_chain_allows(
                    ops.drop_first(),
                    masked(inp, verdicts[0]),
                    map_outputs,
                    verdicts.drop_first(),
                    out,
                )
            },
            AsyncOperation::Take(n) => async_chain_allows(
                ops.drop_first(),
                taken(inp, n),
                map_outputs,
                verdicts,
                out,
            ),
            AsyncOperation::Skip(n) => async_chain_allows(
                ops.drop_first(),
                skipped(inp, n),
                map_outputs,
                verdicts,
                out,
            ),
            AsyncOperation::Reverse => async_chain_allows(
                ops.drop_first(),
                inp.reverse(),
                map_outputs,
                verdicts,
                out,
            ),
        }
    }
}

/// Extending an evaluation by one more operation at the end.
pub proof fn lemma_chain_allows_push<T, F: Fn(&T) -> T, P: Fn(&T) -> bool>(
    ops: Seq<Operation<F, P>>,
    op: Operation<F, P>,
    inp: Seq<T>,
    mid: Seq<T>,
    out: Seq<T>,
)
    requires
        chain_allows(ops, inp, mid),
        op_allows(op, mid, out),
    ensures
        chain_allows(ops.push(op), inp, out),
    decreases ops.len(),
{
    if ops.len() == 0 {
        assert(ops.push(op)[0] == op);
        assert(ops.push(op).drop_first() =~= Seq::<Operation<F, P>>::empty());
        assert(chain_allows(ops.push(op).drop_first(), out, out));
    } else {
        let m0 = choose|m: Seq<T>|
            #[trigger] op_allows(ops[0], inp, m) && chain_allows(ops.drop_first(), m, mid);
        lemma_chain_allows_push(ops.drop_first(), op, m0, mid, out);
        assert(ops.push(op).drop_first() =~= ops.drop_first().push(op));
        assert(ops.push(op)[0] == ops[0]);
        assert(op_allows(ops.push(op)[0], inp, m0) && chain_allows(
            ops.push(op).drop_first(),
            m0,
            out,
        ));
    }
}

/// A deferred sequence of operations over a copied source sequence.
pub struct Chain<T, F, P> {
    data: Vec<T>,
    operations: Vec<Operation<F, P>>,
}

/// A deferred sequence of asynchronous operations over a copied source
/// sequence.  Only construction is offered here; driving the deferred
/// computations is the host's business.
pub struct AsyncChain<T, F, P> {
    data: Vec<T>,
    operations: Vec<AsyncOperation<F, P>>,
}

/// Wrap a copy of `data` in a new chain.
pub fn chain<T: Copy, F: Fn(&T) -> T, P: Fn(&T) -> bool>(data: &[T]) -> (r: Chain<T, F, P>)
    ensures
        r.source() == data@,
        r.ops() == Seq::<Operation<F, P>>::empty(),
        r.wf(),
{
    Chain::new(data)
}

/// Wrap a copy of `data` in a new asynchronous chain.
pub fn chain_async<T: Copy, F, P>(data: &[T]) -> (r: AsyncChain<T, F, P>)
    ensures
        r.source() == data@,
        r.ops() == Seq::<AsyncOperation<F, P>>::empty(),
{
    AsyncChain::new(data)
}

impl<T, F: Fn(&T) -> T, P: Fn(&T) -> bool> Chain<T, F, P> {
    /// The source sequence the chain was built from.
    pub closed spec fn source(self) -> Seq<T> {
        self.data@
    }

    /// The operations appended so far, oldest first.
    pub closed spec fn ops(self) -> Seq<Operation<F, P>> {
        self.operations@
    }

    /// Every stored closure accepts every argument, so the chain can be
    /// evaluated whatever the intermediate sequences turn out to be.
    pub open spec fn wf(self) -> bool {
        ops_callable::<T, F, P>(self.ops())
    }

    /// A new chain over a copy of `data`, with no operations yet.
    pub fn new(data: &[T]) -> (r: Self) where T: Copy
        ensures
            r.source() == data@,
            r.ops() == Seq::<Operation<F, P>>::empty(),
            r.wf(),
    {
        Chain { data: vstd::slice::slice_to_vec(data), operations: Vec::new() }
    }

    /// Append a map step.  The mapper must accept every element.
    pub fn map(self, mapper: F) -> (r: Self)
        requires
            forall|x: T| call_requires(mapper, (&x,)),
    ensures
            r.source() == self.source(),
            r.ops() == self.ops().push(Operation::<F, P>::MapStep(mapper)),
            self.wf() ==> r.wf(),
    {
        let mut c = self;
        c.operations.push(Operation::MapStep(mapper));
        c
    }

    /// Append a filter step.  The predicate must accept every element.
    pub fn filter(self, predicate: P) -> (r: Self)
        requires
            forall|x: T| call_requires(predicate, (&x,)),
    ensures
            r.source() == self.source(),
            r.ops() == self.ops().push(Operation::<F, P>::Filter(predicate)),
            self.wf() ==> r.wf(),
    {
        let mut c = self;
        c.operations.push(Operation::Filter(predicate));
        c
    }

    /// Append a step that keeps the first `n` elements.
    pub fn take(self, n: usize) -> (r: Self)
        ensures
            r.source() == self.source(),
            r.ops() == self.ops().push(Operation::<F, P>::Take(n)),
            self.wf() ==> r.wf(),
    {
        let mut c = self;
        c.operations.push(Operation::Take(n));
        c
    }

    /// Append a step that drops the first `n` elements.
    pub fn skip(self, n: usize) -> (r: Self)
        ensures
            r.source() == self.source(),
            r.ops() == self.ops().push(Operation::<F, P>::Skip(n)),
            self.wf() ==> r.wf(),
    {
        let mut c = self;
        c.operations.push(Operation::Skip(n));
        c
    }

    /// Append a step that reverses the element order.
    pub fn reverse(self) -> (r: Self)
        ensures
            r.source() == self.source(),
            r.ops() == self.ops().push(Operation::<F, P>::Reverse),
            self.wf() ==> r.wf(),
    {
        let mut c = self;
        c.operations.push(Operation::Reverse);
        c
    }

    /// Consume the chain like [`Chain::value`], then convert each element
    /// of the final sequence, in order.
    pub fn collect<U: From<T>>(self) -> (r: Vec<U>)
        requires
            self.wf(),
        ensures
            exists|mid: Seq<T>|
                {
                    &&& #[trigger] chain_allows(self.ops(), self.source(), mid)
                    &&& r@.len() == mid.len()
                    &&& forall|i: int|
                        0 <= i < mid.len() ==> call_ensures(U::from, (mid[i],), #[trigger] r@[i])
                },
    {
        let mid = self.value();
        let ghost mid_view = mid@;
        let mut rest = mid;
        let mut r: Vec<U> = Vec::new();
        while rest.len() > 0
            invariant
                r@.len() + rest@.len() == mid_view.len(),
                rest@ == mid_view.skip(r@.len() as int),
                forall|i: int|
                    0 <= i < r@.len() ==> call_ensures(U::from, (mid_view[i],), #[trigger] r@[i]),
            decreases rest.len(),
        {
            let ghost done = r@.len() as int;
            let x = rest.remove(0);
            proof {
                assert(x == mid_view.skip(done)[0]);
                assert(x == mid_view[done]);
                assert(rest@ =~= mid_view.skip(done + 1));
            }
            r.push(U::from(x));
        }
        r
    }

    /// Consume the chain: apply every operation, in append order, to the
    /// source sequence and return the final sequence.
    pub fn value(self) -> (r: Vec<T>)
        requires
            self.wf(),
        ensures
            chain_allows(self.ops(), self.source(), r@),
    {
        let Chain { data, mut operations } = self;
        let ghost all_ops = operations@;
        let ghost src = data@;
        let ghost mut k: int = 0;
        let mut result = data;
        while operations.len() > 0
            invariant
                0 <= k <= all_ops.len(),
                operations@ == all_ops.skip(k),
                ops_callable::<T, F, P>(all_ops),
                chain_allows(all_ops.take(k), src, result@),
            decreases operations.len(),
        {
            let ghost before = result@;
            let op = operations.remove(0);
            proof {
                assert(all_ops.skip(k)[0] == all_ops[k]);
                assert(all_ops.skip(k).subrange(1, all_ops.skip(k).len() as int) =~= all_ops.skip(
                    k + 1,
                ));
            }
            match op {
                Operation::MapStep(f) => {
                    result = apply_map(result, &f);
                }
                Operation::Filter(p) => {
                    result = apply_filter(result, &p);
                }
                Operation::Take(n) => {
                    result = apply_take(result, n);
                }
                Operation::Skip(n) => {
                    result = apply_skip(result, n);
                }
                Operation::Reverse => {
                    result = apply_reverse(result);
                }
            }
            proof {
                assert(op_allows(all_ops[k], before, result@));
                lemma_chain_allows_push(all_ops.take(k), all_ops[k], src, before, result@);
                assert(all_ops.take(k).push(all_ops[k]) =~= all_ops.take(k + 1));
                k = k + 1;
            }
        }
        proof {
            assert(all_ops.take(k) =~= all_ops);
        }
        result
    }

    /// Consume the chain and wrap the result as a [`Collection`].
    pub fn into_collection(self) -> (r: Collection<T>)
        requires
            self.wf(),
        ensures
            chain_allows(self.ops(), self.source(), r@),
    {
        Collection::new(self.value())
    }
}

/// Replace every element of `v` by an output of `f` on it, in order.
fn apply_map<T, F: Fn(&T) -> T>(v: Vec<T>, f: &F) -> (r: Vec<T>)
    requires
        forall|x: T| call_requires(*f, (&x,)),
    ensures
        maps_to(*f, v@, r@),
{
    let n = v.len();
    let mut r: Vec<T> = Vec::new();
    let mut j: usize = 0;
    while j < n
        invariant
            n == v@.len(),
            forall|x: T| call_requires(*f, (&x,)),
            j <= n,
            r@.len() == j,
            forall|i: int| 0 <= i < j ==> call_ensures(*f, (&v@[i],), #[trigger] r@[i]),
        decreases n - j,
    {
        r.push(f(&v[j]));
        j += 1;
    }
    r
}

/// Keep the elements of `v` that `p` accepts, in order.
fn apply_filter<T, P: Fn(&T) -> bool>(v: Vec<T>, p: &P) -> (r: Vec<T>)
    requires
        forall|x: T| call_requires(*p, (&x,)),
    ensures
        filters_to(*p, v@, r@),
{
    let n = v.len();
    let mut v = v;
    let mut r: Vec<T> = Vec::new();
    let ghost all = v@;
    let ghost mut keep: Seq<bool> = Seq::empty();
    let mut j: usize = 0;
    while j < n
        invariant
            n == all.len(),
            v@ == all.skip(j as int),
            forall|x: T| call_requires(*p, (&x,)),
            j <= n,
            keep.len() == j,
            forall|i: int| 0 <= i < j ==> call_ensures(*p, (&all[i],), #[trigger] keep[i]),
            r@ == crate::specs::masked(all.subrange(0, j as int), keep),
        decreases n - j,
    {
        let x = v.remove(0);
        proof {
            assert(all.skip(j as int)[0] == all[j as int]);
            assert(all.skip(j as int).subrange(1, all.skip(j as int).len() as int) =~= all.skip(
                j + 1,
            ));
        }
        let verdict = p(&x);
        proof {
            lemma_masked_push(all.subrange(0, j as int), keep, all[j as int], verdict);
            assert(all.subrange(0, j as int).push(all[j as int]) =~= all.subrange(0, j + 1));
            keep = keep.push(verdict);
        }
        if verdict {
            r.push(x);
        }
        j += 1;
    }
    proof {
        assert(all.subrange(0, n as int) =~= all);
    }
    r
}

/// Keep the first `n` elements of `v`: the synchronous take step, shared
/// with host executors of asynchronous chains.
pub fn apply_take<T>(v: Vec<T>, n: usize) -> (r: Vec<T>)
    ensures
        r@ == taken(v@, n),
{
    let mut v = v;
    let ghost before = v@;
    v.truncate(n);
    proof {
        assert(v@ =~= taken(before, n));
    }
    v
}

/// Keep the elements of `items` whose verdict is true, in order: the
/// decision half of a filter step whose verdicts were computed elsewhere
/// (awaited, or fanned out to a worker pool).
pub fn select_by_verdicts<T>(items: Vec<T>, verdicts: &Vec<bool>) -> (r: Vec<T>)
    requires
        items@.len() == verdicts@.len(),
    ensures
        r@ == masked(items@, verdicts@),
{
    let n = items.len();
    let mut items = items;
    let mut r: Vec<T> = Vec::new();
    let ghost all = items@;
    let mut j: usize = 0;
    while j < n
        invariant
            n == all.len(),
            verdicts@.len() == n,
            items@ == all.skip(j as int),
            j <= n,
            r@ == masked(all.subrange(0, j as int), verdicts@.subrange(0, j as int)),
        decreases n - j,
    {
        let x = items.remove(0);
        proof {
            assert(all.skip(j as int)[0] == all[j as int]);
            assert(all.skip(j as int).subrange(1, all.skip(j as int).len() as int) =~= all.skip(
                j + 1,
            ));
            lemma_masked_push(all.subrange(0, j as int), verdicts@.subrange(0, j as int),
                all[j as int], verdicts@[j as int]);
            assert(all.subrange(0, j as int).push(all[j as int]) =~= all.subrange(0, j + 1));
            assert(verdicts@.subrange(0, j as int).push(verdicts@[j as int])
                =~= verdicts@.subrange(0, j + 1));
        }
        if verdicts[j] {
            r.push(x);
        }
        j += 1;
    }
    proof {
        assert(all.subrange(0, n as int) =~= all);
        assert(verdicts@.subrange(0, n as int) =~= verdicts@);
    }
    r
}

/// Drop the first `n` elements of `v`: the synchronous skip step, shared
/// with host executors of asynchronous chains.
pub fn apply_skip<T>(v: Vec<T>, n: usize) -> (r: Vec<T>)
    ensures
        r@ == skipped(v@, n),
{
    let mut v = v;
    if n >= v.len() {
        let r: Vec<T> = Vec::new();
        proof {
            assert(skipped(v@, n) =~= Seq::<T>::empty());
        }
        r
    } else {
        let r = v.split_off(n);
        r
    }
}

/// Reverse the element order of `v`: the synchronous reverse step, shared
/// with host executors of asynchronous chains.
pub fn apply_reverse<T>(v: Vec<T>) -> (r: Vec<T>)
    ensures
        r@ == v@.reverse(),
{
    let ghost all = v@;
    let mut v = v;
    let mut r: Vec<T> = Vec::new();
    while v.len() > 0
        invariant
            v@.len() <= all.len(),
            v@ == all.subrange(0, v@.len() as int),
            r@ == all.subrange(v@.len() as int, all.len() as int).reverse(),
        decreases v.len(),
    {
        let ghost len = v@.len() as int;
        let x = v.pop().unwrap();
        proof {
            assert(all.subrange(0, len)[len - 1] == all[len - 1]);
            assert(x == all[len - 1]);
            assert(all.subrange(0, len).drop_last() =~= all.subrange(0, len - 1));
            assert(all.subrange(len - 1, all.len() as int).reverse() =~= all.subrange(
                len,
                all.len() as int,
            ).reverse().push(all[len - 1]));
        }
        r.push(x);
    }
    proof {
        assert(all.subrange(0, all.len() as int) =~= all);
        assert(r@ == all.reverse());
    }
    r
}

impl<T, F, P> AsyncChain<T, F, P> {
    /// The source sequence the chain was built from.
    pub closed spec fn source(self) -> Seq<T> {
        self.data@
    }

    /// The operations appended so far, oldest first.
    pub closed spec fn ops(self) -> Seq<AsyncOperation<F, P>> {
        self.operations@
    }

    /// A new asynchronous chain over a copy of `data`.
    pub fn new(data: &[T]) -> (r: Self) where T: Copy
        ensures
            r.source() == data@,
            r.ops() == Seq::<AsyncOperation<F, P>>::empty(),
    {
        AsyncChain { data: vstd::slice::slice_to_vec(data), operations: Vec::new() }
    }

    /// Append an asynchronous map step.
    pub fn map_async(self, mapper: F) -> (r: Self)
        ensures
            r.source() == self.source(),
            r.ops() == self.ops().push(AsyncOperation::<F, P>::MapAsync(mapper)),
    {
        let mut c = self;
        c.operations.push(AsyncOperation::MapAsync(mapper));
        c
    }

    /// Append an asynchronous filter step.
    pub fn filter_async(self, predicate: P) -> (r: Self)
        ensures
            r.source() == self.source(),
            r.ops() == self.ops().push(AsyncOperation::<F, P>::FilterAsync(predicate)),
    {
        let mut c = self;
        c.operations.push(AsyncOperation::FilterAsync(predicate));
        c
    }

    /// Append a step that keeps the first `n` elements.
    pub fn take(self, n: usize) -> (r: Self)
        ensures
            r.source() == self.source(),
            r.ops() == self.ops().push(AsyncOperation::<F, P>::Take(n)),
    {
        let mut c = self;
        c.operations.push(AsyncOperation::Take(n));
        c
    }

    /// Append a step that drops the first `n` elements.
    pub fn skip(self, n: usize) -> (r: Self)
        ensures
            r.source() == self.source(),
            r.ops() == self.ops().push(AsyncOperation::<F, P>::Skip(n)),
    {
        let mut c = self;
        c.operations.push(AsyncOperation::Skip(n));
        c
    }

    /// Append a step that reverses the element order.
    pub fn reverse(self) -> (r: Self)
        ensures
            r.source() == self.source(),
            r.ops() == self.ops().push(AsyncOperation::<F, P>::Reverse),
    {
        let mut c = self;
        c.operations.push(AsyncOperation::Reverse);
        c
    }

    /// Hand out the copied source and the operation list, oldest first, so
    /// that a host executor can drive the deferred computations.
    pub fn into_parts(self) -> (r: (Vec<T>, Vec<AsyncOperation<F, P>>))
        ensures
            r.0@ == self.source(),
            r.1@ == self.ops(),
    {
        let AsyncChain { data, operations } = self;
        (data, operations)
    }
}

} // verus!
