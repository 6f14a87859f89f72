//! Specification-level models shared across the library.
//!
//! User-supplied closures are opaque to the verifier, so the contracts of the
//! higher-order functions in this crate are stated relationally: a result
//! sequence is acceptable when each of its elements is a possible output of
//! the supplied closure on the corresponding input.  When a closure's own
//! `ensures` pins its output down, these relations pin the whole result.

use vstd::prelude::*;

verus! {

/// `f` may be called on (a reference to) every element of `s`.
pub open spec fn callable_on<T, U, F: Fn(&T) -> U>(f: F, s: Seq<T>) -> bool {
    forall|i: int| 0 <= i < s.len() ==> call_requires(f, (&s[i],))
}

/// `f` may be called on each element of `s` with every accumulator the fold
/// from `init` can actually reach at that element.
pub open spec fn fold_callable<T, U, F: Fn(U, &T) -> U>(f: F, init: U, s: Seq<T>) -> bool {
    forall|acc: U, i: int|
        0 <= i < s.len() && #[trigger] folds_to(f, init, s.subrange(0, i), acc) ==> call_requires(
            f,
            (acc, &s[i]),
        )
}

/// `r` is an element-wise image of `s` under `f`: same length, order kept,
/// and each `r[i]` is a possible output of `f` on `s[i]`.
pub open spec fn maps_to<T, U, F: Fn(&T) -> U>(f: F, s: Seq<T>, r: Seq<U>) -> bool {
    &&& r.len() == s.len()
    &&& forall|i: int| 0 <= i < s.len() ==> call_ensures(f, (&s[i],), #[trigger] r[i])
}

/// The subsequence of `s` selected by the `true` entries of `keep`,
/// in the original order.
pub open spec fn masked<T>(s: Seq<T>, keep: Seq<bool>) -> Seq<T>
    recommends
        keep.len() == s.len(),
    decreases s.len(),
{
    if s.len() == 0 {
        Seq::empty()
    } else if keep[s.len() - 1] {
        masked(s.drop_last(), keep.drop_last()).push(s.last())
    } else {
        masked(s.drop_last(), keep.drop_last())
    }
}

/// `r` is a filtering of `s` by `p`: some sequence of verdicts, each a
/// possible output of `p` on the corresponding element, selects `r`.
pub open spec fn filters_to<T, P: Fn(&T) -> bool>(p: P, s: Seq<T>, r: Seq<T>) -> bool {
    exists|keep: Seq<bool>|
        {
            &&& keep.len() == s.len()
            &&& (forall|i: int|
                0 <= i < s.len() ==> call_ensures(p, (&s[i],), #[trigger] keep[i]))
            &&& r == masked(s, keep)
        }
}

/// `r` is a possible left fold of `f` over `s` starting from `init`.
pub open spec fn folds_to<T, U, F: Fn(U, &T) -> U>(f: F, init: U, s: Seq<T>, r: U) -> bool
    decreases s.len(),
{
    if s.len() == 0 {
        r == init
    } else {
        exists|mid: U|
            #[trigger] call_ensures(f, (init, &s[0]), mid) && folds_to(
                f,
                mid,
                s.drop_first(),
                r,
            )
    }
}

/// The first `n` elements of `s`, or all of `s` when it is shorter.
pub open spec fn taken<T>(s: Seq<T>, n: usize) -> Seq<T> {
    if n as int <= s.len() {
        s.subrange(0, n as int)
    } else {
        s
    }
}

/// `s` without its first `n` elements, empty when `s` is shorter.
pub open spec fn skipped<T>(s: Seq<T>, n: usize) -> Seq<T> {
    if n as int <= s.len() {
        s.subrange(n as int, s.len() as int)
    } else {
        Seq::empty()
    }
}

/// A sequence of verdicts, each one a possible output of `p` on the
/// corresponding element, witnesses that the selection it makes is a
/// filtering of `s` by `p`.
pub proof fn lemma_filters_to_witness<T, P: Fn(&T) -> bool>(p: P, s: Seq<T>, keep: Seq<bool>)
    requires
        keep.len() == s.len(),
        forall|i: int| 0 <= i < s.len() ==> call_ensures(p, (&s[i],), #[trigger] keep[i]),
    ensures
        filters_to(p, s, masked(s, keep)),
{
}

/// A fold step that accepts every accumulator at every element is callable
/// however the fold unwinds.
pub proof fn lemma_fold_callable_total<T, U, F: Fn(U, &T) -> U>(f: F, init: U, s: Seq<T>)
    requires
        forall|acc: U, i: int| 0 <= i < s.len() ==> call_requires(f, (acc, &s[i])),
    ensures
        fold_callable(f, init, s),
{
}

/// A fold over no elements yields the initial accumulator.
pub proof fn lemma_folds_to_empty<T, U, F: Fn(U, &T) -> U>(f: F, init: U, s: Seq<T>, r: U)
    requires
        folds_to(f, init, s, r),
        s.len() == 0,
    ensures
        r == init,
{
}

/// A fold over a non-empty sequence takes one step on the first element and
/// folds on over the rest.
pub proof fn lemma_folds_to_unfold<T, U, F: Fn(U, &T) -> U>(f: F, init: U, s: Seq<T>, r: U)
    requires
        folds_to(f, init, s, r),
        s.len() > 0,
    ensures
        exists|mid: U|
            #[trigger] call_ensures(f, (init, &s[0]), mid) && folds_to(
                f,
                mid,
                s.drop_first(),
                r,
            ),
{
}

/// Extending a fold by one more element on the right.
pub proof fn lemma_folds_to_push<T, U, F: Fn(U, &T) -> U>(
    f: F,
    init: U,
    s: Seq<T>,
    x: T,
    mid: U,
    r: U,
)
    requires
        folds_to(f, init, s, mid),
        call_ensures(f, (mid, &x), r),
    ensures
        folds_to(f, init, s.push(x), r),
    decreases s.len(),
{
    if s.len() == 0 {
        assert(s.push(x)[0] == x);
        assert(s.push(x).drop_first() =~= Seq::<T>::empty());
        assert(mid == init);
        assert(folds_to(f, r, s.push(x).drop_first(), r));
    } else {
        let m0 = choose|m: U|
            #[trigger] call_ensures(f, (init, &s[0]), m) && folds_to(f, m, s.drop_first(), mid);
        lemma_folds_to_push(f, m0, s.drop_first(), x, mid, r);
        assert(s.push(x).drop_first() =~= s.drop_first().push(x));
        assert(s.push(x)[0] == s[0]);
        assert(call_ensures(f, (init, &s.push(x)[0]), m0) && folds_to(
            f,
            m0,
            s.push(x).drop_first(),
            r,
        ));
    }
}

/// Extending a masked selection by one more element on the right.
pub proof fn lemma_masked_push<T>(s: Seq<T>, keep: Seq<bool>, x: T, b: bool)
    requires
        keep.len() == s.len(),
    ensures
        b ==> masked(s.push(x), keep.push(b)) == masked(s, keep).push(x),
        !b ==> masked(s.push(x), keep.push(b)) == masked(s, keep),
{
    let s2 = s.push(x);
    let k2 = keep.push(b);
    assert(s2.drop_last() =~= s);
    assert(k2.drop_last() =~= keep);
    assert(s2.last() == x);
    assert(k2[s2.len() - 1] == b);
}

/// When every verdict of `p` agrees with the specification predicate `q`,
/// a masked selection by those verdicts is exactly `s.filter(q)`.
pub proof fn lemma_masked_is_filter<T>(s: Seq<T>, keep: Seq<bool>, q: spec_fn(T) -> bool)
    requires
        keep.len() == s.len(),
        forall|i: int| 0 <= i < s.len() ==> keep[i] == q(s[i]),
    ensures
        masked(s, keep) == s.filter(q),
    decreases s.len(),
{
    reveal(Seq::filter);
    if s.len() == 0 {
        assert(masked(s, keep) =~= s.filter(q));
    } else {
        assert forall|i: int|
            0 <= i < s.drop_last().len() implies keep.drop_last()[i] == q(
            s.drop_last()[i],
        ) by {
            assert(keep.drop_last()[i] == keep[i]);
            assert(s.drop_last()[i] == s[i]);
        }
        lemma_masked_is_filter(s.drop_last(), keep.drop_last(), q);
        assert(keep[s.len() - 1] == q(s.last()));
        if keep[s.len() - 1] {
            assert(masked(s, keep) == masked(s.drop_last(), keep.drop_last()).push(s.last()));
            assert(s.filter(q) == s.drop_last().filter(q).push(s.last()));
        } else {
            assert(masked(s, keep) == masked(s.drop_last(), keep.drop_last()));
            assert(s.filter(q) == s.drop_last().filter(q));
        }
    }
}

} // verus!
