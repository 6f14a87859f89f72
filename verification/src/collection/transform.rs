//! Reorganising transforms: `group_by`, `key_by`, `invoke`, `sort_by`,
//! `order_by`.

use core::cmp::Ordering;
use std::collections::HashMap;
use vstd::prelude::*;
use vstd::multiset::Multiset;
use vstd::seq_lib::lemma_multiset_commutative;
use vstd::std_specs::cmp::PartialOrdSpec;

use crate::collection::Collection;
use crate::specs::callable_on;
use crate::specs::maps_to;

verus! {

broadcast use
    vstd::std_specs::hash::group_hash_axioms,
    vstd::seq_lib::group_to_multiset_ensures,
;

/// `a` sorts at or before `b`.
pub open spec fn key_le<K: PartialOrd>(a: K, b: K) -> bool {
    a.partial_cmp_spec(&b) matches Some(Ordering::Less | Ordering::Equal)
}

/// The comparison on `K` behaves as a total order, and the executable
/// comparison operators agree with it.  The standard integer and string
/// types satisfy this.
pub open spec fn well_ordered<K: PartialOrd>() -> bool {
    &&& K::obeys_partial_cmp_spec()
    &&& forall|a: K, b: K| (#[trigger] a.partial_cmp_spec(&b)) is Some
    &&& forall|a: K, b: K|
        (#[trigger] a.partial_cmp_spec(&b)) == Some(Ordering::Greater) <==> b.partial_cmp_spec(&a)
            == Some(Ordering::Less)
    &&& forall|a: K, b: K, c: K|
        #![trigger key_le(a, b), key_le(b, c)]
        key_le(a, b) && key_le(b, c) ==> key_le(a, c)
}

/// The comparison on `i32` is a total order in the sense of
/// [`well_ordered`], so `i32` keys can drive the sorts.
pub proof fn lemma_i32_keys_well_ordered()
    ensures
        well_ordered::<i32>(),
{
}

/// The comparison on `u64` is a total order in the sense of
/// [`well_ordered`], so `u64` keys can drive the sorts.
pub proof fn lemma_u64_keys_well_ordered()
    ensures
        well_ordered::<u64>(),
{
}

/// The key column of `s` is sorted, ascending or descending.
pub open spec fn sorted_by_key<K: PartialOrd, T>(s: Seq<(K, T)>, ascending: bool) -> bool {
    if ascending {
        forall|i: int, j: int| 0 <= i <= j < s.len() ==> key_le(#[trigger] s[i].0, #[trigger] s[j].0)
    } else {
        forall|i: int, j: int| 0 <= i <= j < s.len() ==> key_le(#[trigger] s[j].0, #[trigger] s[i].0)
    }
}

/// `keys` assigns every element of `out` a key that `f` can return for it,
/// and the key column is sorted in the stated direction.
pub open spec fn sorted_keys_for<T, K: PartialOrd, F: Fn(&T) -> K>(
    f: F,
    out: Seq<T>,
    keys: Seq<K>,
    ascending: bool,
) -> bool {
    &&& keys.len() == out.len()
    &&& forall|i: int| 0 <= i < out.len() ==> call_ensures(f, (&out[i],), #[trigger] keys[i])
    &&& if ascending {
        forall|i: int, j: int| 0 <= i <= j < keys.len() ==> key_le(#[trigger] keys[i], #[trigger] keys[j])
    } else {
        forall|i: int, j: int| 0 <= i <= j < keys.len() ==> key_le(#[trigger] keys[j], #[trigger] keys[i])
    }
}

/// `perm` carries each position of `r` back to a distinct position of
/// `source` holding the same value: `r` is a repositioning of `source`.
pub open spec fn position_map<A>(source: Seq<A>, r: Seq<A>, perm: Seq<int>) -> bool {
    &&& perm.len() == r.len()
    &&& r.len() == source.len()
    &&& forall|i: int| 0 <= i < perm.len() ==> 0 <= #[trigger] perm[i] < source.len()
    &&& forall|i: int, j: int| 0 <= i < j < perm.len() ==> perm[i] != perm[j]
    &&& forall|i: int| 0 <= i < perm.len() ==> r[i] == source[#[trigger] perm[i]]
}

/// Positions whose keys compare equal appear in their original source
/// order: the sort is stable.
pub open spec fn stable_on_equal_keys<K: PartialOrd>(keys: Seq<K>, perm: Seq<int>) -> bool {
    forall|i: int, j: int|
        0 <= i < j < keys.len() && key_le(#[trigger] keys[i], #[trigger] keys[j]) && key_le(
            keys[j],
            keys[i],
        ) ==> perm[i] < perm[j]
}

/// The grouping of `items` by `keys`: each key maps to the subsequence of
/// the items that carry it, in their original order.
pub open spec fn groups_of<K, T>(items: Seq<T>, keys: Seq<K>) -> Map<K, Seq<T>>
    recommends
        keys.len() == items.len(),
    decreases items.len(),
{
    if items.len() == 0 {
        Map::empty()
    } else {
        let m = groups_of(items.drop_last(), keys.drop_last());
        let k = keys.last();
        let bucket = if m.contains_key(k) {
            m[k]
        } else {
            Seq::empty()
        };
        m.insert(k, bucket.push(items.last()))
    }
}

/// The exec map `m` holds exactly the groups `g`.
pub open spec fn groups_match<K, T>(m: Map<K, Vec<T>>, g: Map<K, Seq<T>>) -> bool {
    &&& m.dom() == g.dom()
    &&& forall|k: K| g.contains_key(k) ==> (#[trigger] m[k])@ == g[k]
}

/// The keying of `items` by `keys`: each key maps to the last item that
/// carries it.
pub open spec fn keyed_of<K, T>(items: Seq<T>, keys: Seq<K>) -> Map<K, T>
    recommends
        keys.len() == items.len(),
    decreases items.len(),
{
    if items.len() == 0 {
        Map::empty()
    } else {
        keyed_of(items.drop_last(), keys.drop_last()).insert(keys.last(), items.last())
    }
}

/// Group the elements by the key `iteratee` computes for each: every key
/// maps to the elements that produced it, in their original order.
///
/// The key type must fit the hash table's key model, as the integer types
/// do; this is what makes the table's view trustworthy.
pub fn group_by<T: Copy, K: std::hash::Hash + Eq, F: Fn(&T) -> K>(
    collection: &[T],
    iteratee: F,
) -> (r: HashMap<K, Vec<T>>)
    requires
        callable_on(iteratee, collection@),
        vstd::std_specs::hash::obeys_key_model::<K>(),
    ensures
        exists|keys: Seq<K>|
            {
                &&& #[trigger] maps_to(iteratee, collection@, keys)
                &&& groups_match(r@, groups_of(collection@, keys))
            },
{
    let n = collection.len();
    let mut groups: HashMap<K, Vec<T>> = HashMap::new();
    let ghost mut keys: Seq<K> = Seq::empty();
    let mut j: usize = 0;
    while j < n
        invariant
            n == collection@.len(),
            callable_on(iteratee, collection@),
            vstd::std_specs::hash::obeys_key_model::<K>(),
            j <= n,
            keys.len() == j,
            forall|i: int|
                0 <= i < j ==> call_ensures(iteratee, (&collection@[i],), #[trigger] keys[i]),
            groups_match(groups@, groups_of(collection@.subrange(0, j as int), keys)),
        decreases n - j,
    {
        let key = iteratee(&collection[j]);
        let mut bucket = match groups.remove(&key) {
            Some(b) => b,
            None => Vec::new(),
        };
        bucket.push(collection[j]);
        groups.insert(key, bucket);
        proof {
            let prior = keys;
            let prefix = collection@.subrange(0, j as int);
            keys = keys.push(key);
            assert(prefix.push(collection@[j as int]) =~= collection@.subrange(0, j + 1));
            assert(collection@.subrange(0, j + 1).drop_last() =~= prefix);
            assert(keys.drop_last() =~= prior);
            let g2 = groups_of(collection@.subrange(0, j + 1), keys);
            assert(groups@.dom() =~= g2.dom());
        }
        j += 1;
    }
    proof {
        assert(collection@.subrange(0, n as int) =~= collection@);
        assert(maps_to(iteratee, collection@, keys));
    }
    groups
}

/// Key the elements by the key `iteratee` computes for each: every key maps
/// to the last element that produced it.
pub fn key_by<T: Copy, K: std::hash::Hash + Eq, F: Fn(&T) -> K>(
    collection: &[T],
    iteratee: F,
) -> (r: HashMap<K, T>)
    requires
        callable_on(iteratee, collection@),
        vstd::std_specs::hash::obeys_key_model::<K>(),
    ensures
        exists|keys: Seq<K>|
            {
                &&& #[trigger] maps_to(iteratee, collection@, keys)
                &&& r@ == keyed_of(collection@, keys)
            },
{
    let n = collection.len();
    let mut keyed: HashMap<K, T> = HashMap::new();
    let ghost mut keys: Seq<K> = Seq::empty();
    let mut j: usize = 0;
    while j < n
        invariant
            n == collection@.len(),
            callable_on(iteratee, collection@),
            vstd::std_specs::hash::obeys_key_model::<K>(),
            j <= n,
            keys.len() == j,
            forall|i: int|
                0 <= i < j ==> call_ensures(iteratee, (&collection@[i],), #[trigger] keys[i]),
            keyed@ == keyed_of(collection@.subrange(0, j as int), keys),
        decreases n - j,
    {
        let key = iteratee(&collection[j]);
        keyed.insert(key, collection[j]);
        proof {
            let prior = keys;
            let prefix = collection@.subrange(0, j as int);
            keys = keys.push(key);
            assert(prefix.push(collection@[j as int]) =~= collection@.subrange(0, j + 1));
            assert(collection@.subrange(0, j + 1).drop_last() =~= prefix);
            assert(keys.drop_last() =~= prior);
        }
        j += 1;
    }
    proof {
        assert(collection@.subrange(0, n as int) =~= collection@);
        assert(maps_to(iteratee, collection@, keys));
    }
    keyed
}

/// Apply `method` to each element and collect the outputs, in order.
pub fn invoke<T, U, F: Fn(&T) -> U>(collection: &[T], method: F) -> (r: Vec<U>)
    requires
        callable_on(method, collection@),
    ensures
        maps_to(method, collection@, r@),
{
    crate::collection::iteration::map(collection, method)
}

/// Inserting an element anywhere in a sequence adds it to the multiset of
/// elements.
proof fn lemma_seq_insert_to_multiset<A>(s: Seq<A>, i: int, x: A)
    requires
        0 <= i <= s.len(),
    ensures
        s.insert(i, x).to_multiset() == s.to_multiset().insert(x),
{
    let front = s.subrange(0, i);
    let back = s.subrange(i, s.len() as int);
    assert(s.insert(i, x) =~= front + seq![x] + back);
    assert(s =~= front + back);
    lemma_multiset_commutative(front + seq![x], back);
    lemma_multiset_commutative(front, seq![x]);
    lemma_multiset_commutative(front, back);
    assert(seq![x] =~= Seq::<A>::empty().push(x));
    assert(seq![x].to_multiset() =~= Multiset::<A>::empty().insert(x));
    assert(s.insert(i, x).to_multiset() =~= s.to_multiset().insert(x));
}

/// Stable insertion sort on key-element pairs, by the key column: the
/// result is a repositioning of the pairs (witnessed by a position map)
/// whose key column is sorted, with equal keys kept in their original
/// relative order.
fn sort_pairs<K: PartialOrd, T>(pairs: Vec<(K, T)>, ascending: bool) -> (r: Vec<(K, T)>)
    requires
        well_ordered::<K>(),
    ensures
        r@.to_multiset() == pairs@.to_multiset(),
        sorted_by_key(r@, ascending),
        exists|perm: Seq<int>|
            {
                &&& #[trigger] position_map(pairs@, r@, perm)
                &&& forall|i: int, j: int|
                    0 <= i < j < r@.len() && key_le((#[trigger] r@[i]).0, (#[trigger] r@[j]).0)
                        && key_le(r@[j].0, r@[i].0) ==> perm[i] < perm[j]
            },
{
    let ghost all = pairs@;
    let mut rest = pairs;
    let mut out: Vec<(K, T)> = Vec::new();
    let ghost mut perm: Seq<int> = Seq::empty();
    while rest.len() > 0
        invariant
            well_ordered::<K>(),
            out@.to_multiset().add(rest@.to_multiset()) == all.to_multiset(),
            sorted_by_key(out@, ascending),
            out@.len() + rest@.len() == all.len(),
            rest@ == all.skip(out@.len() as int),
            perm.len() == out@.len(),
            forall|i: int| 0 <= i < perm.len() ==> 0 <= #[trigger] perm[i] < out@.len(),
            forall|i: int, j: int| 0 <= i < j < perm.len() ==> perm[i] != perm[j],
            forall|i: int| 0 <= i < perm.len() ==> out@[i] == all[#[trigger] perm[i]],
            forall|i: int, j: int|
                0 <= i < j < out@.len() && key_le((#[trigger] out@[i]).0, (#[trigger] out@[j]).0)
                    && key_le(out@[j].0, out@[i].0) ==> perm[i] < perm[j],
        decreases rest.len(),
    {
        let ghost rest0 = rest@;
        let ghost source_pos = out@.len() as int;
        let item = rest.remove(0);
        proof {
            assert(rest@ =~= rest0.drop_first());
            assert(rest0 =~= rest@.insert(0, item));
            lemma_seq_insert_to_multiset(rest@, 0, item);
            assert(item == rest0[0]);
            assert(rest0[0] == all[source_pos]);
            assert(rest@ =~= all.skip(source_pos + 1));
        }
        let mut idx: usize = 0;
        while idx < out.len() && keeps_scanning(&out[idx].0, &item.0, ascending)
            invariant
                well_ordered::<K>(),
                sorted_by_key(out@, ascending),
                idx <= out@.len(),
                ascending ==> forall|k: int| 0 <= k < idx ==> key_le(#[trigger] out@[k].0, item.0),
                !ascending ==> forall|k: int| 0 <= k < idx ==> key_le(item.0, #[trigger] out@[k].0),
            decreases out@.len() - idx,
        {
            idx += 1;
        }
        proof {
            let ghost out0 = out@;
            if idx < out0.len() {
                if ascending {
                    assert(!key_le(out0[idx as int].0, item.0));
                    assert(out0[idx as int].0.partial_cmp_spec(&item.0) == Some(
                        Ordering::Greater,
                    ));
                    assert(key_le(item.0, out0[idx as int].0));
                } else {
                    assert(!key_le(item.0, out0[idx as int].0));
                    assert(item.0.partial_cmp_spec(&out0[idx as int].0) == Some(
                        Ordering::Greater,
                    ));
                    assert(key_le(out0[idx as int].0, item.0));
                }
            }
        }
        let ghost out0 = out@;
        let ghost perm0 = perm;
        out.insert(idx, item);
        proof {
            perm = perm.insert(idx as int, source_pos);
            lemma_seq_insert_to_multiset(out0, idx as int, item);
            let out1 = out@;
            assert(out1 == out0.insert(idx as int, item));
            assert forall|i: int, j: int| 0 <= i <= j < out1.len() implies (if ascending {
                key_le(out1[i].0, out1[j].0)
            } else {
                key_le(out1[j].0, out1[i].0)
            }) by {
                if i < idx as int && j < idx as int {
                    assert(out1[i] == out0[i] && out1[j] == out0[j]);
                } else if i < idx as int && j == idx as int {
                    assert(out1[i] == out0[i] && out1[j] == item);
                } else if i < idx as int && j > idx as int {
                    assert(out1[i] == out0[i] && out1[j] == out0[j - 1]);
                } else if i == idx as int && j == idx as int {
                } else if i == idx as int && j > idx as int {
                    assert(out1[i] == item && out1[j] == out0[j - 1]);
                    if ascending {
                        assert(key_le(item.0, out0[idx as int].0));
                        assert(key_le(out0[idx as int].0, out0[j - 1].0));
                    } else {
                        assert(key_le(out0[idx as int].0, item.0));
                        assert(key_le(out0[j - 1].0, out0[idx as int].0));
                    }
                } else {
                    assert(out1[i] == out0[i - 1] && out1[j] == out0[j - 1]);
                }
            }
            assert forall|i: int|
                0 <= i < perm.len() implies 0 <= #[trigger] perm[i] < out1.len() && out1[i] == all[
            perm[i]] by {
                if i < idx as int {
                    assert(perm[i] == perm0[i] && out1[i] == out0[i]);
                } else if i == idx as int {
                    assert(perm[i] == source_pos && out1[i] == item);
                } else {
                    assert(perm[i] == perm0[i - 1] && out1[i] == out0[i - 1]);
                }
            }
            assert forall|i: int, j: int| 0 <= i < j < perm.len() implies perm[i] != perm[j] by {
                if i < idx as int && j == idx as int {
                    assert(perm[i] == perm0[i] && perm[i] < source_pos);
                } else if i == idx as int && j > idx as int {
                    assert(perm[j] == perm0[j - 1] && perm[j] < source_pos);
                } else if i < idx as int && j > idx as int {
                    assert(perm[i] == perm0[i] && perm[j] == perm0[j - 1]);
                } else if j < idx as int {
                    assert(perm[i] == perm0[i] && perm[j] == perm0[j]);
                } else {
                    assert(perm[i] == perm0[i - 1] && perm[j] == perm0[j - 1]);
                }
            }
            assert forall|i: int, j: int|
                0 <= i < j < out1.len() && key_le((#[trigger] out1[i]).0, (#[trigger] out1[j]).0)
                    && key_le(out1[j].0, out1[i].0) implies perm[i] < perm[j] by {
                if i < idx as int && j < idx as int {
                    assert(out1[i] == out0[i] && out1[j] == out0[j]);
                    assert(perm[i] == perm0[i] && perm[j] == perm0[j]);
                } else if i < idx as int && j == idx as int {
                    assert(perm[i] == perm0[i] && perm[i] < source_pos && perm[j] == source_pos);
                } else if i < idx as int && j > idx as int {
                    assert(out1[i] == out0[i] && out1[j] == out0[j - 1]);
                    assert(perm[i] == perm0[i] && perm[j] == perm0[j - 1]);
                } else if i == idx as int && j > idx as int {
                    assert(out1[i] == item && out1[j] == out0[j - 1]);
                    if idx < out0.len() {
                        if ascending {
                            assert(key_le(out0[idx as int].0, out0[j - 1].0));
                            if key_le(out0[j - 1].0, item.0) {
                                assert(key_le(out0[idx as int].0, item.0));
                            }
                            assert(!key_le(out1[j].0, out1[i].0));
                        } else {
                            assert(key_le(out0[j - 1].0, out0[idx as int].0));
                            if key_le(item.0, out0[j - 1].0) {
                                assert(key_le(item.0, out0[idx as int].0));
                            }
                            assert(!key_le(out1[i].0, out1[j].0));
                        }
                    }
                } else {
                    assert(out1[i] == out0[i - 1] && out1[j] == out0[j - 1]);
                    assert(perm[i] == perm0[i - 1] && perm[j] == perm0[j - 1]);
                }
            }
            assert(out@.to_multiset().add(rest@.to_multiset()) =~= all.to_multiset());
            assert(rest@ =~= all.skip(out@.len() as int));
        }
    }
    proof {
        assert(out@.to_multiset() =~= all.to_multiset());
        assert(out@.to_multiset().len() == out@.len());
        assert(all.to_multiset().len() == all.len());
        assert(position_map(all, out@, perm));
    }
    out
}

/// Whether the insertion scan moves past `existing` when placing `incoming`:
/// in ascending order it moves past keys at or below the incoming key, in
/// descending order past keys at or above it, so equal keys keep their
/// relative order.
fn keeps_scanning<K: PartialOrd>(existing: &K, incoming: &K, ascending: bool) -> (r: bool)
    requires
        well_ordered::<K>(),
    ensures
        ascending ==> r == key_le(*existing, *incoming),
        !ascending ==> r == key_le(*incoming, *existing),
{
    if ascending {
        existing.le(incoming)
    } else {
        existing.ge(incoming)
    }
}

/// The elements sorted ascending by the key `iteratee` computes for each:
/// the result is a stable repositioning of the input whose key column is
/// sorted.
pub fn sort_by<T: Copy, K: PartialOrd, F: Fn(&T) -> K>(collection: &[T], iteratee: F) -> (r: Vec<
    T,
>)
    requires
        callable_on(iteratee, collection@),
        well_ordered::<K>(),
    ensures
        r@.to_multiset() == collection@.to_multiset(),
        exists|keys: Seq<K>, perm: Seq<int>|
            {
                &&& #[trigger] sorted_keys_for(iteratee, r@, keys, true)
                &&& #[trigger] position_map(collection@, r@, perm)
                &&& stable_on_equal_keys(keys, perm)
            },
{
    order_by(collection, iteratee, true)
}

/// Like [`sort_by`], with the direction chosen by `ascending`.
pub fn order_by<T: Copy, K: PartialOrd, F: Fn(&T) -> K>(
    collection: &[T],
    iteratee: F,
    ascending: bool,
) -> (r: Vec<T>)
    requires
        callable_on(iteratee, collection@),
        well_ordered::<K>(),
    ensures
        r@.to_multiset() == collection@.to_multiset(),
        exists|keys: Seq<K>, perm: Seq<int>|
            {
                &&& #[trigger] sorted_keys_for(iteratee, r@, keys, ascending)
                &&& #[trigger] position_map(collection@, r@, perm)
                &&& stable_on_equal_keys(keys, perm)
            },
{
    let n = collection.len();
    let mut pairs: Vec<(K, T)> = Vec::new();
    let mut j: usize = 0;
    while j < n
        invariant
            n == collection@.len(),
            callable_on(iteratee, collection@),
            j <= n,
            pairs@.len() == j,
            forall|i: int|
                0 <= i < j ==> call_ensures(
                    iteratee,
                    (&(#[trigger] pairs@[i]).1,),
                    pairs@[i].0,
                ),
            forall|i: int| 0 <= i < j ==> (#[trigger] pairs@[i]).1 == collection@[i],
        decreases n - j,
    {
        let key = iteratee(&collection[j]);
        pairs.push((key, collection[j]));
        j += 1;
    }
    let ghost pairs0 = pairs@;
    let sorted = sort_pairs(pairs, ascending);
    let ghost sorted_view = sorted@;
    proof {
        assert forall|i: int|
            0 <= i < sorted_view.len() implies call_ensures(
            iteratee,
            (&(#[trigger] sorted_view[i]).1,),
            sorted_view[i].0,
        ) by {
            assert(sorted_view.to_multiset().count(sorted_view[i]) > 0);
            assert(pairs0.to_multiset().count(sorted_view[i]) > 0);
            assert(pairs0.contains(sorted_view[i]));
            let j0 = choose|j0: int| 0 <= j0 < pairs0.len() && pairs0[j0] == sorted_view[i];
            assert(call_ensures(iteratee, (&pairs0[j0].1,), pairs0[j0].0));
        }
    }
    let mut r: Vec<T> = Vec::new();
    let ghost mut keys: Seq<K> = Seq::empty();
    let mut rest = sorted;
    while rest.len() > 0
        invariant
            keys.len() == r@.len(),
            r@.len() + rest@.len() == sorted_view.len(),
            forall|i: int|
                0 <= i < r@.len() ==> keys[i] == (#[trigger] sorted_view[i]).0 && r@[i]
                    == sorted_view[i].1,
            rest@ == sorted_view.skip(r@.len() as int),
        decreases rest.len(),
    {
        let ghost done = r@.len() as int;
        let ghost rest_before = rest@;
        let pair = rest.remove(0);
        proof {
            assert(pair == sorted_view.skip(done)[0]);
            assert(pair == sorted_view[done]);
            assert(rest@ =~= sorted_view.skip(done + 1));
        }
        r.push(pair.1);
        proof {
            keys = keys.push(pair.0);
        }
    }
    proof {
        assert(snd_of(sorted_view) =~= r@);
        assert(snd_of(pairs0) =~= collection@);
        lemma_snd_multiset(sorted_view, pairs0);
        assert forall|i: int|
            0 <= i < r@.len() implies call_ensures(
            iteratee,
            (&r@[i],),
            #[trigger] keys[i],
        ) by {
            assert(keys[i] == sorted_view[i].0 && r@[i] == sorted_view[i].1);
        }
        if ascending {
            assert forall|i: int, j: int|
                0 <= i <= j < keys.len() implies key_le(#[trigger] keys[i], #[trigger] keys[j]) by {
                assert(key_le(sorted_view[i].0, sorted_view[j].0));
            }
        } else {
            assert forall|i: int, j: int|
                0 <= i <= j < keys.len() implies key_le(#[trigger] keys[j], #[trigger] keys[i]) by {
                assert(key_le(sorted_view[j].0, sorted_view[i].0));
            }
        }
        assert(sorted_keys_for(iteratee, r@, keys, ascending));
        let perm = choose|perm: Seq<int>|
            {
                &&& #[trigger] position_map(pairs0, sorted_view, perm)
                &&& forall|i: int, j: int|
                    0 <= i < j < sorted_view.len() && key_le(
                        (#[trigger] sorted_view[i]).0,
                        (#[trigger] sorted_view[j]).0,
                    ) && key_le(sorted_view[j].0, sorted_view[i].0) ==> perm[i] < perm[j]
            };
        assert forall|i: int|
            0 <= i < perm.len() implies r@[i] == collection@[#[trigger] perm[i]] by {
            assert(sorted_view[i] == pairs0[perm[i]]);
            assert(pairs0[perm[i]].1 == collection@[perm[i]]);
        }
        assert(position_map(collection@, r@, perm));
        assert forall|i: int, j: int|
            0 <= i < j < keys.len() && key_le(#[trigger] keys[i], #[trigger] keys[j]) && key_le(
                keys[j],
                keys[i],
            ) implies perm[i] < perm[j] by {
            assert(keys[i] == sorted_view[i].0 && keys[j] == sorted_view[j].0);
        }
        assert(stable_on_equal_keys(keys, perm));
    }
    r
}

impl<T> Collection<T> {
    /// Group the elements by the key `iteratee` computes for each.
    pub fn group_by<K: std::hash::Hash + Eq, F: Fn(&T) -> K>(&self, iteratee: F) -> (r: HashMap<
        K,
        Vec<T>,
    >) where T: Copy
        requires
            callable_on(iteratee, self@),
            vstd::std_specs::hash::obeys_key_model::<K>(),
        ensures
            exists|keys: Seq<K>|
                {
                    &&& #[trigger] maps_to(iteratee, self@, keys)
                    &&& groups_match(r@, groups_of(self@, keys))
                },
    {
        group_by(self.data().as_slice(), iteratee)
    }

    /// Key the elements by the key `iteratee` computes for each; a later
    /// element wins over an earlier one with the same key.
    pub fn key_by<K: std::hash::Hash + Eq, F: Fn(&T) -> K>(&self, iteratee: F) -> (r: HashMap<
        K,
        T,
    >) where T: Copy
        requires
            callable_on(iteratee, self@),
            vstd::std_specs::hash::obeys_key_model::<K>(),
        ensures
            exists|keys: Seq<K>|
                {
                    &&& #[trigger] maps_to(iteratee, self@, keys)
                    &&& r@ == keyed_of(self@, keys)
                },
    {
        key_by(self.data().as_slice(), iteratee)
    }

    /// Apply `method` to each element and collect the outputs, in order.
    pub fn invoke<U, F: Fn(&T) -> U>(&self, method: F) -> (r: Vec<U>)
        requires
            callable_on(method, self@),
        ensures
            maps_to(method, self@, r@),
    {
        invoke(self.data().as_slice(), method)
    }

    /// The elements sorted ascending by the key `iteratee` computes.
    pub fn sort_by<K: PartialOrd, F: Fn(&T) -> K>(&self, iteratee: F) -> (r: Vec<T>) where T: Copy
        requires
            callable_on(iteratee, self@),
            well_ordered::<K>(),
        ensures
            r@.to_multiset() == self@.to_multiset(),
            exists|keys: Seq<K>, perm: Seq<int>|
                {
                    &&& #[trigger] sorted_keys_for(iteratee, r@, keys, true)
                    &&& #[trigger] position_map(self@, r@, perm)
                    &&& stable_on_equal_keys(keys, perm)
                },
    {
        sort_by(self.data().as_slice(), iteratee)
    }

    /// Like [`Collection::sort_by`], with the direction chosen by `ascending`.
    pub fn order_by<K: PartialOrd, F: Fn(&T) -> K>(&self, iteratee: F, ascending: bool) -> (r: Vec<
        T,
    >) where T: Copy
        requires
            callable_on(iteratee, self@),
            well_ordered::<K>(),
        ensures
            r@.to_multiset() == self@.to_multiset(),
            exists|keys: Seq<K>, perm: Seq<int>|
                {
                    &&& #[trigger] sorted_keys_for(iteratee, r@, keys, ascending)
                    &&& #[trigger] position_map(self@, r@, perm)
                    &&& stable_on_equal_keys(keys, perm)
                },
    {
        order_by(self.data().as_slice(), iteratee, ascending)
    }
}

/// The element column of a sequence of key-element pairs.
pub open spec fn snd_of<K, T>(s: Seq<(K, T)>) -> Seq<T> {
    s.map_values(|p: (K, T)| p.1)
}

/// Pair sequences with equal multisets have element columns with equal
/// multisets: permuting pairs permutes their elements.
proof fn lemma_snd_multiset<K, T>(s1: Seq<(K, T)>, s2: Seq<(K, T)>)
    requires
        s1.to_multiset() == s2.to_multiset(),
    ensures
        snd_of(s1).to_multiset() == snd_of(s2).to_multiset(),
    decreases s1.len(),
{
    if s1.len() == 0 {
        assert(s2.to_multiset().len() == 0);
        assert(s2.len() == 0);
        assert(snd_of(s1) =~= Seq::<T>::empty());
        assert(snd_of(s2) =~= Seq::<T>::empty());
    } else {
        let x = s1.last();
        assert(s1.contains(x));
        assert(s1.to_multiset().count(x) > 0);
        assert(s2.to_multiset().count(x) > 0);
        assert(s2.contains(x));
        let i = choose|i: int| 0 <= i < s2.len() && s2[i] == x;
        let s1r = s1.drop_last();
        let s2r = s2.remove(i);
        assert(s1r =~= s1.remove(s1.len() - 1));
        assert(s1r.to_multiset() == s1.to_multiset().remove(x));
        assert(s2r.to_multiset() == s2.to_multiset().remove(x));
        lemma_snd_multiset(s1r, s2r);
        assert(snd_of(s1r).push(x.1) =~= snd_of(s1));
        assert(snd_of(s1).to_multiset() == snd_of(s1r).to_multiset().insert(x.1));
        assert(snd_of(s2r) =~= snd_of(s2).remove(i));
        assert(snd_of(s2).remove(i).to_multiset() == snd_of(s2).to_multiset().remove(
            snd_of(s2)[i],
        ));
        assert(snd_of(s2)[i] == x.1);
        assert(snd_of(s2).contains(snd_of(s2)[i]));
        assert(snd_of(s2).to_multiset().count(x.1) > 0);
        assert(snd_of(s2).to_multiset().remove(x.1).insert(x.1) =~= snd_of(s2).to_multiset());
        assert(snd_of(s1).to_multiset() == snd_of(s2).to_multiset());
    }
}

} // verus!
