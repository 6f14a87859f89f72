//! The algebraic laws of chain evaluation.
//!
//! Each lemma here consumes the relation that the chain's terminal calls
//! ensure ([`chain_allows`]) and derives a classic fact about the result: maps keep
//! the length and act element-wise, a filter keeps exactly the accepted
//! elements in order, take and skip cut the stated windows, reversing twice
//! restores the source, and any chain over an empty source yields an empty
//! result.

use vstd::prelude::*;

use crate::chain::AsyncOperation;
use crate::chain::Operation;
use crate::chain::async_chain_allows;
use crate::chain::chain_allows;
use crate::chain::op_allows;
use crate::specs::lemma_filters_to_witness;
use crate::specs::lemma_masked_is_filter;
use crate::specs::maps_to;
use crate::specs::masked;
use crate::specs::skipped;
use crate::specs::taken;

verus! {

/// Every operation of `ops` is a map step.
pub open spec fn all_maps<F, P>(ops: Seq<Operation<F, P>>) -> bool {
    forall|k: int| 0 <= k < ops.len() ==> (#[trigger] ops[k]) is MapStep
}

/// A chain of map steps alone never changes the length of the sequence.
pub proof fn lemma_map_chain_preserves_len<T, F: Fn(&T) -> T, P: Fn(&T) -> bool>(
    ops: Seq<Operation<F, P>>,
    s: Seq<T>,
    out: Seq<T>,
)
    requires
        all_maps(ops),
        chain_allows(ops, s, out),
    ensures
        out.len() == s.len(),
    decreases ops.len(),
{
    if ops.len() == 0 {
    } else {
        let mid = choose|mid: Seq<T>|
            #[trigger] op_allows(ops[0], s, mid) && chain_allows(ops.drop_first(), mid, out);
        assert(mid.len() == s.len());
        lemma_map_chain_preserves_len(ops.drop_first(), mid, out);
    }
}

/// A single map step whose mapper `f` is pinned down by the specification
/// function `g` yields exactly the element-wise image of the source under
/// `g`, in order.
pub proof fn lemma_map_chain_pointwise<T, F: Fn(&T) -> T, P: Fn(&T) -> bool>(
    f: F,
    s: Seq<T>,
    out: Seq<T>,
    g: spec_fn(T) -> T,
)
    requires
        chain_allows(seq![Operation::<F, P>::MapStep(f)], s, out),
        forall|x: T, y: T| call_ensures(f, (&x,), y) ==> y == g(x),
    ensures
        out.len() == s.len(),
        forall|i: int| 0 <= i < s.len() ==> out[i] == g(s[i]),
{
    let ops = seq![Operation::<F, P>::MapStep(f)];
    let mid = choose|mid: Seq<T>|
        #[trigger] op_allows(ops[0], s, mid) && chain_allows(ops.drop_first(), mid, out);
    assert(ops.drop_first() =~= Seq::<Operation<F, P>>::empty());
    assert(out == mid);
}

/// A single filter step whose predicate `p` is pinned down by the
/// specification predicate `q` yields exactly the elements satisfying `q`,
/// in their original relative order.
pub proof fn lemma_filter_chain_exact<T, F: Fn(&T) -> T, P: Fn(&T) -> bool>(
    p: P,
    s: Seq<T>,
    out: Seq<T>,
    q: spec_fn(T) -> bool,
)
    requires
        chain_allows(seq![Operation::<F, P>::Filter(p)], s, out),
        forall|x: T, b: bool| call_ensures(p, (&x,), b) ==> b == q(x),
    ensures
        out == s.filter(q),
{
    let ops = seq![Operation::<F, P>::Filter(p)];
    let mid = choose|mid: Seq<T>|
        #[trigger] op_allows(ops[0], s, mid) && chain_allows(ops.drop_first(), mid, out);
    assert(ops.drop_first() =~= Seq::<Operation<F, P>>::empty());
    assert(out == mid);
    let keep = choose|keep: Seq<bool>|
        {
            &&& keep.len() == s.len()
            &&& (forall|i: int| 0 <= i < s.len() ==> call_ensures(p, (&s[i],), #[trigger] keep[i]))
            &&& mid == masked(s, keep)
        };
    assert forall|i: int| 0 <= i < s.len() implies keep[i] == q(s[i]) by {
        assert(call_ensures(p, (&s[i],), keep[i]));
    }
    lemma_masked_is_filter(s, keep, q);
}

/// A single take step yields the prefix of the source of length
/// `min(n, len)`.
pub proof fn lemma_take_chain<T, F: Fn(&T) -> T, P: Fn(&T) -> bool>(
    n: usize,
    s: Seq<T>,
    out: Seq<T>,
)
    requires
        chain_allows(seq![Operation::<F, P>::Take(n)], s, out),
    ensures
        out == taken(s, n),
        out.len() == if n as int <= s.len() { n as int } else { s.len() as int },
{
    let ops = seq![Operation::<F, P>::Take(n)];
    let mid = choose|mid: Seq<T>|
        #[trigger] op_allows(ops[0], s, mid) && chain_allows(ops.drop_first(), mid, out);
    assert(ops.drop_first() =~= Seq::<Operation<F, P>>::empty());
}

/// A single skip step yields the suffix of the source from position
/// `min(n, len)` on.
pub proof fn lemma_skip_chain<T, F: Fn(&T) -> T, P: Fn(&T) -> bool>(
    n: usize,
    s: Seq<T>,
    out: Seq<T>,
)
    requires
        chain_allows(seq![Operation::<F, P>::Skip(n)], s, out),
    ensures
        out == skipped(s, n),
        out.len() == if n as int <= s.len() { s.len() - n } else { 0 },
{
    let ops = seq![Operation::<F, P>::Skip(n)];
    let mid = choose|mid: Seq<T>|
        #[trigger] op_allows(ops[0], s, mid) && chain_allows(ops.drop_first(), mid, out);
    assert(ops.drop_first() =~= Seq::<Operation<F, P>>::empty());
}

/// A single reverse step yields the reversed source.
pub proof fn lemma_reverse_chain<T, F: Fn(&T) -> T, P: Fn(&T) -> bool>(s: Seq<T>, out: Seq<T>)
    requires
        chain_allows(seq![Operation::<F, P>::Reverse], s, out),
    ensures
        out == s.reverse(),
{
    let ops = seq![Operation::<F, P>::Reverse];
    let mid = choose|mid: Seq<T>|
        #[trigger] op_allows(ops[0], s, mid) && chain_allows(ops.drop_first(), mid, out);
    assert(ops.drop_first() =~= Seq::<Operation<F, P>>::empty());
}

/// Reversing twice restores the source: reversal is an involution.
pub proof fn lemma_reverse_involution<T, F: Fn(&T) -> T, P: Fn(&T) -> bool>(
    s: Seq<T>,
    out: Seq<T>,
)
    requires
        chain_allows(
            seq![Operation::<F, P>::Reverse, Operation::<F, P>::Reverse],
            s,
            out,
        ),
    ensures
        out == s,
{
    let ops = seq![Operation::<F, P>::Reverse, Operation::<F, P>::Reverse];
    let mid = choose|mid: Seq<T>|
        #[trigger] op_allows(ops[0], s, mid) && chain_allows(ops.drop_first(), mid, out);
    assert(mid == s.reverse());
    assert(ops.drop_first() =~= seq![Operation::<F, P>::Reverse]);
    lemma_reverse_chain::<T, F, P>(mid, out);
    assert(out =~= s);
}

/// `op` is a map step whose mapper is pinned down by the specification
/// function `g`: every output it can give on `x` is `g(x)`.
pub open spec fn map_pinned_by<T, F: Fn(&T) -> T, P: Fn(&T) -> bool>(
    op: Operation<F, P>,
    g: spec_fn(T) -> T,
) -> bool {
    match op {
        Operation::MapStep(f) => forall|x: T, y: T| call_ensures(f, (&x,), y) ==> y == g(x),
        Operation::Filter(_) => false,
        Operation::Take(_) => false,
        Operation::Skip(_) => false,
        Operation::Reverse => false,
    }
}

/// The composition of `gs`, first function first.
pub open spec fn composed_apply<T>(gs: Seq<spec_fn(T) -> T>, x: T) -> T
    decreases gs.len(),
{
    if gs.len() == 0 {
        x
    } else {
        composed_apply(gs.drop_first(), gs[0](x))
    }
}

/// A chain of map steps alone, the k-th pinned down by the k-th
/// specification function, keeps the length and maps each element to the
/// composition of all of them, in order.
pub proof fn lemma_map_chain_composition<T, F: Fn(&T) -> T, P: Fn(&T) -> bool>(
    ops: Seq<Operation<F, P>>,
    gs: Seq<spec_fn(T) -> T>,
    s: Seq<T>,
    out: Seq<T>,
)
    requires
        ops.len() == gs.len(),
        forall|k: int| 0 <= k < ops.len() ==> map_pinned_by(#[trigger] ops[k], gs[k]),
        chain_allows(ops, s, out),
    ensures
        out.len() == s.len(),
        forall|i: int| 0 <= i < s.len() ==> out[i] == composed_apply(gs, s[i]),
    decreases ops.len(),
{
    if ops.len() == 0 {
        assert(out == s);
        assert forall|i: int| 0 <= i < s.len() implies out[i] == composed_apply(gs, s[i]) by {
            assert(composed_apply(gs, s[i]) == s[i]);
        }
    } else {
        let mid = choose|mid: Seq<T>|
            #[trigger] op_allows(ops[0], s, mid) && chain_allows(ops.drop_first(), mid, out);
        assert(map_pinned_by(ops[0], gs[0]));
        assert forall|i: int| 0 <= i < s.len() implies mid[i] == gs[0](s[i]) by {
            match ops[0] {
                Operation::MapStep(f) => {
                    assert(call_ensures(f, (&s[i],), mid[i]));
                },
                _ => {
                    assert(false);
                },
            }
        }
        assert forall|k: int|
            0 <= k < ops.drop_first().len() implies map_pinned_by(
            #[trigger] ops.drop_first()[k],
            gs.drop_first()[k],
        ) by {
            assert(ops.drop_first()[k] == ops[k + 1]);
            assert(gs.drop_first()[k] == gs[k + 1]);
        }
        lemma_map_chain_composition(ops.drop_first(), gs.drop_first(), mid, out);
        assert forall|i: int| 0 <= i < s.len() implies out[i] == composed_apply(gs, s[i]) by {
            assert(out[i] == composed_apply(gs.drop_first(), mid[i]));
            assert(composed_apply(gs, s[i]) == composed_apply(gs.drop_first(), gs[0](s[i])));
        }
    }
}

/// The asynchronous operations of `aops` mirror the synchronous operations
/// of `ops` step for step, and every awaited row is a row the synchronous
/// closure could have produced on the very sequence the step received: the
/// map rows are element-wise outputs of the corresponding mapper, the
/// verdict rows element-wise verdicts of the corresponding predicate.
pub open spec fn rows_allowed<T, F: Fn(&T) -> T, P: Fn(&T) -> bool, AF, AP>(
    aops: Seq<AsyncOperation<AF, AP>>,
    ops: Seq<Operation<F, P>>,
    inp: Seq<T>,
    map_outputs: Seq<Seq<T>>,
    verdicts: Seq<Seq<bool>>,
) -> bool
    decreases aops.len(),
{
    if aops.len() == 0 {
        ops.len() == 0
    } else if ops.len() == 0 {
        false
    } else {
        match (aops[0], ops[0]) {
            (AsyncOperation::MapAsync(_), Operation::MapStep(f)) => {
                &&& map_outputs.len() > 0
                &&& maps_to(f, inp, map_outputs[0])
                &&& rows_allowed(
                    aops.drop_first(),
                    ops.drop_first(),
                    map_outputs[0],
                    map_outputs.drop_first(),
                    verdicts,
                )
            },
            (AsyncOperation::FilterAsync(_), Operation::Filter(p)) => {
                &&& verdicts.len() > 0
                &&& verdicts[0].len() == inp.len()
                &&& (forall|i: int|
                    0 <= i < inp.len() ==> call_ensures(p, (&inp[i],), #[trigger] verdicts[0][i]))
                &&& rows_allowed(
                    aops.drop_first(),
                    ops.drop_first(),
                    masked(inp, verdicts[0]),
                    map_outputs,
                    verdicts.drop_first(),
                )
            },
            (AsyncOperation::Take(n), Operation::Take(m)) => n == m && rows_allowed(
                aops.drop_first(),
                ops.drop_first(),
                taken(inp, n),
                map_outputs,
                verdicts,
            ),
            (AsyncOperation::Skip(n), Operation::Skip(m)) => n == m && rows_allowed(
                aops.drop_first(),
                ops.drop_first(),
                skipped(inp, n),
                map_outputs,
                verdicts,
            ),
            (AsyncOperation::Reverse, Operation::Reverse) => rows_allowed(
                aops.drop_first(),
                ops.drop_first(),
                inp.reverse(),
                map_outputs,
                verdicts,
            ),
            _ => false,
        }
    }
}

/// An asynchronous evaluation whose awaited rows agree with the mirrored
/// synchronous closures yields a result the synchronous chain also allows:
/// given equivalent element-wise functions, the two paths agree.
pub proof fn lemma_async_matches_sync<T, F: Fn(&T) -> T, P: Fn(&T) -> bool, AF, AP>(
    aops: Seq<AsyncOperation<AF, AP>>,
    ops: Seq<Operation<F, P>>,
    inp: Seq<T>,
    map_outputs: Seq<Seq<T>>,
    verdicts: Seq<Seq<bool>>,
    out: Seq<T>,
)
    requires
        rows_allowed(aops, ops, inp, map_outputs, verdicts),
        async_chain_allows(aops, inp, map_outputs, verdicts, out),
    ensures
        chain_allows(ops, inp, out),
    decreases aops.len(),
{
    if aops.len() == 0 {
        assert(out == inp);
    } else {
        match (aops[0], ops[0]) {
            (AsyncOperation::MapAsync(_), Operation::MapStep(f)) => {
                let mid = map_outputs[0];
                lemma_async_matches_sync(aops.drop_first(), ops.drop_first(), mid,
                    map_outputs.drop_first(), verdicts, out);
                assert(op_allows(ops[0], inp, mid));
            },
            (AsyncOperation::FilterAsync(_), Operation::Filter(p)) => {
                let mid = masked(inp, verdicts[0]);
                lemma_async_matches_sync(aops.drop_first(), ops.drop_first(), mid, map_outputs,
                    verdicts.drop_first(), out);
                lemma_filters_to_witness(p, inp, verdicts[0]);
                assert(op_allows(ops[0], inp, mid));
            },
            (AsyncOperation::Take(n), Operation::Take(m)) => {
                let mid = taken(inp, n);
                lemma_async_matches_sync(aops.drop_first(), ops.drop_first(), mid, map_outputs,
                    verdicts, out);
                assert(op_allows(ops[0], inp, mid));
            },
            (AsyncOperation::Skip(n), Operation::Skip(m)) => {
                let mid = skipped(inp, n);
                lemma_async_matches_sync(aops.drop_first(), ops.drop_first(), mid, map_outputs,
                    verdicts, out);
                assert(op_allows(ops[0], inp, mid));
            },
            (AsyncOperation::Reverse, Operation::Reverse) => {
                let mid = inp.reverse();
                lemma_async_matches_sync(aops.drop_first(), ops.drop_first(), mid, map_outputs,
                    verdicts, out);
                assert(op_allows(ops[0], inp, mid));
            },
            _ => {
                assert(false);
            },
        }
    }
}

/// Any chain evaluated over an empty source yields an empty result,
/// whatever its operations are.
pub proof fn lemma_chain_on_empty<T, F: Fn(&T) -> T, P: Fn(&T) -> bool>(
    ops: Seq<Operation<F, P>>,
    out: Seq<T>,
)
    requires
        chain_allows(ops, Seq::<T>::empty(), out),
    ensures
        out == Seq::<T>::empty(),
    decreases ops.len(),
{
    let s = Seq::<T>::empty();
    if ops.len() == 0 {
    } else {
        let mid = choose|mid: Seq<T>|
            #[trigger] op_allows(ops[0], s, mid) && chain_allows(ops.drop_first(), mid, out);
        match ops[0] {
            Operation::MapStep(f) => {
                assert(mid =~= s);
            }
            Operation::Filter(p) => {
                assert(mid =~= s);
            }
            Operation::Take(n) => {
                assert(mid =~= s);
            }
            Operation::Skip(n) => {
                assert(mid =~= s);
            }
            Operation::Reverse => {
                assert(mid =~= s);
            }
        }
        lemma_chain_on_empty(ops.drop_first(), out);
    }
}

} // verus!
