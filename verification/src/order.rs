//! Canonical total orders, sorting, and duplicate removal.
//!
//! Every derived artifact is emitted in a canonical order so that equal
//! inputs always produce byte-identical projections.

use vstd::prelude::*;
use vstd::multiset::Multiset;
use vstd::seq_lib::group_to_multiset_ensures;

use crate::text::{
    lemma_seq_le_antisymmetric, lemma_seq_le_reflexive, lemma_seq_le_total, lemma_seq_le_transitive,
    seq_le, seq_lt, text_eq, text_le,
};

verus! {

/// A total order over the abstract values of a type.
pub trait CanonicalOrder: View + Sized {
    /// `a` may precede `b` in canonical order.
    spec fn ordered(a: Self::V, b: Self::V) -> bool;

    proof fn lemma_ordered_reflexive(a: Self::V)
        ensures
            Self::ordered(a, a),
    ;

    proof fn lemma_ordered_transitive(a: Self::V, b: Self::V, c: Self::V)
        requires
            Self::ordered(a, b),
            Self::ordered(b, c),
        ensures
            Self::ordered(a, c),
    ;

    proof fn lemma_ordered_total(a: Self::V, b: Self::V)
        ensures
            Self::ordered(a, b) || Self::ordered(b, a),
    ;

    /// Executable comparison.
    fn precedes(&self, other: &Self) -> (r: bool)
        ensures
            r == Self::ordered(self@, other@),
    ;
}

/// A canonical order under which equivalent values are equal.
pub trait TotalOrder: CanonicalOrder {
    proof fn lemma_ordered_antisymmetric(a: Self::V, b: Self::V)
        requires
            Self::ordered(a, b),
            Self::ordered(b, a),
        ensures
            a == b,
    ;
}

/// The abstract values of a sequence of concrete values.
pub open spec fn views<T: View>(s: Seq<T>) -> Seq<T::V> {
    s.map_values(|x: T| x@)
}

/// Every pair is in canonical order.
pub open spec fn is_canonical<T: CanonicalOrder>(s: Seq<T::V>) -> bool {
    forall|i: int, j: int| 0 <= i < j < s.len() ==> T::ordered(#[trigger] s[i], #[trigger] s[j])
}

/// Every pair is in canonical order and distinct.
pub open spec fn is_strictly_canonical<T: CanonicalOrder>(s: Seq<T::V>) -> bool {
    forall|i: int, j: int|
        0 <= i < j < s.len() ==> T::ordered(#[trigger] s[i], #[trigger] s[j]) && s[i] != s[j]
}

impl CanonicalOrder for String {
    open spec fn ordered(a: Seq<char>, b: Seq<char>) -> bool {
        seq_le(a, b)
    }

    proof fn lemma_ordered_reflexive(a: Seq<char>) {
        lemma_seq_le_reflexive(a);
    }

    proof fn lemma_ordered_transitive(a: Seq<char>, b: Seq<char>, c: Seq<char>) {
        lemma_seq_le_transitive(a, b, c);
    }

    proof fn lemma_ordered_total(a: Seq<char>, b: Seq<char>) {
        lemma_seq_le_total(a, b);
    }

    fn precedes(&self, other: &Self) -> (r: bool) {
        text_le(self.as_str(), other.as_str())
    }
}

impl TotalOrder for String {
    proof fn lemma_ordered_antisymmetric(a: Seq<char>, b: Seq<char>) {
        lemma_seq_le_antisymmetric(a, b);
    }
}

/// Stable insertion sort into canonical order. Each value is placed after
/// the last value already placed that precedes it, so an input already in
/// order costs one comparison per value.
pub fn canonical_sort<T: CanonicalOrder>(v: Vec<T>) -> (out: Vec<T>)
    ensures
        is_canonical::<T>(views(out@)),
        out@.to_multiset() == v@.to_multiset(),
        out@.len() == v@.len(),
{
    broadcast use group_to_multiset_ensures;

    let mut input = v;
    let ghost original = input@;
    // Reverse the input, so that popping yields the values in their given order.
    let mut pending: Vec<T> = Vec::new();
    while input.len() > 0
        invariant
            pending@.to_multiset().add(input@.to_multiset()) == original.to_multiset(),
            pending@.len() + input@.len() == original.len(),
        decreases input.len(),
    {
        let ghost prev = input@;
        let x = input.pop().unwrap();
        proof {
            assert(prev =~= input@.push(x));
        }
        let ghost before = pending@;
        pending.push(x);
        proof {
            vstd::seq_lib::to_multiset_build(input@, x);
            vstd::seq_lib::to_multiset_build(before, x);
            assert(prev.to_multiset() == input@.push(x).to_multiset());
            assert(prev.to_multiset() == input@.to_multiset().insert(x));
            assert(pending@ == before.push(x));
            assert(pending@.to_multiset() == before.push(x).to_multiset());
            assert(pending@.to_multiset() == before.to_multiset().insert(x));
            assert(pending@.to_multiset().add(input@.to_multiset()) =~= before.to_multiset().add(
                prev.to_multiset(),
            )) by {
                broadcast use vstd::multiset::group_multiset_axioms;
            }
        }
    }
    let mut out: Vec<T> = Vec::new();
    while pending.len() > 0
        invariant
            is_canonical::<T>(views(out@)),
            out@.to_multiset().add(pending@.to_multiset()) == original.to_multiset(),
            out@.len() + pending@.len() == original.len(),
        decreases pending.len(),
    {
        let ghost prev = pending@;
        let x = pending.pop().unwrap();
        proof {
            assert(prev =~= pending@.push(x));
        }
        let mut pos: usize = out.len();
        while pos > 0 && !out[pos - 1].precedes(&x)
            invariant
                pos <= out.len(),
                forall|k: int| pos <= k < out.len() ==> !T::ordered(#[trigger] views(out@)[k], x@),
            decreases pos,
        {
            pos = pos - 1;
        }
        let ghost before = out@;
        proof {
            let vb = views(before);
            assert forall|k: int| pos <= k < vb.len() implies T::ordered(x@, #[trigger] vb[k]) by {
                T::lemma_ordered_total(vb[k], x@);
            }
            if pos > 0 {
                assert(T::ordered(vb[pos - 1], x@));
                assert forall|k: int| 0 <= k < pos implies T::ordered(#[trigger] vb[k], x@) by {
                    if k < pos - 1 {
                        T::lemma_ordered_transitive(vb[k], vb[pos - 1], x@);
                    }
                }
            }
        }
        out.insert(pos, x);
        proof {
            let vb = views(before);
            let va = views(out@);
            assert forall|i: int, j: int| 0 <= i < j < va.len() implies T::ordered(
                #[trigger] va[i],
                #[trigger] va[j],
            ) by {
                if i < pos && j < pos {
                    assert(va[i] == vb[i] && va[j] == vb[j]);
                } else if i < pos && j == pos {
                    assert(va[i] == vb[i]);
                } else if i < pos && j > pos {
                    assert(va[i] == vb[i] && va[j] == vb[j - 1]);
                } else if i == pos {
                    assert(va[j] == vb[j - 1]);
                } else {
                    assert(va[i] == vb[i - 1] && va[j] == vb[j - 1]);
                }
            }
            vstd::seq_lib::to_multiset_insert(before, pos as int, x);
            assert(out@ == before.insert(pos as int, x));
            assert(out@.to_multiset() == before.to_multiset().insert(x));
            vstd::seq_lib::to_multiset_build(pending@, x);
            assert(prev.to_multiset() == pending@.push(x).to_multiset());
            assert(prev.to_multiset() == pending@.to_multiset().insert(x));
            assert(out@.to_multiset().add(pending@.to_multiset()) =~= before.to_multiset().add(
                prev.to_multiset(),
            )) by {
                broadcast use vstd::multiset::group_multiset_axioms;
            }
        }
    }
    proof {
        assert(pending@.to_multiset() =~= Multiset::empty());
    }
    out
}

/// Removes adjacent duplicates from a canonically ordered vector.
pub fn canonical_dedup<T: TotalOrder>(v: Vec<T>) -> (out: Vec<T>)
    requires
        is_canonical::<T>(views(v@)),
    ensures
        is_strictly_canonical::<T>(views(out@)),
        forall|x: T::V| views(out@).contains(x) <==> views(v@).contains(x),
        out@.len() <= v@.len(),
{
    let mut input = v;
    let ghost original = views(input@);
    let mut out: Vec<T> = Vec::new();
    let mut consumed: usize = 0;
    let n = input.len();
    assert(original.len() == n);
    while input.len() > 0
        invariant
            is_canonical::<T>(original),
            input@.len() + consumed == original.len(),
            original.len() <= usize::MAX,
            views(input@) == original.skip(consumed as int),
            is_strictly_canonical::<T>(views(out@)),
            out@.len() <= consumed,
            out@.len() > 0 ==> views(out@).last() == original[consumed - 1],
            consumed > 0 ==> out@.len() > 0,
            forall|x: T::V|
                views(out@).contains(x) <==> original.take(consumed as int).contains(x),
        decreases input.len(),
    {
        let ghost prev = input@;
        let x = input.remove(0);
        let ghost xv = x@;
        assert(xv == original[consumed as int]) by {
            assert(views(prev)[0] == original.skip(consumed as int)[0]);
        }
        let ghost before = views(out@);
        let duplicate = if out.len() > 0 {
            let last = out.len() - 1;
            out[last].precedes(&x) && x.precedes(&out[last])
        } else {
            false
        };
        if duplicate {
            proof {
                T::lemma_ordered_antisymmetric(before.last(), xv);
                assert forall|y: T::V| views(out@).contains(y) <==> original.take(
                    consumed + 1,
                ).contains(y) by {
                    assert(original.take(consumed + 1) == original.take(consumed as int).push(xv));
                    if original.take(consumed + 1).contains(y) && y == xv {
                        assert(views(out@)[views(out@).len() - 1] == xv);
                    }
                }
            }
        } else {
            out.push(x);
            proof {
                let va = views(out@);
                assert(va == before.push(xv));
                assert forall|i: int, j: int| 0 <= i < j < va.len() implies T::ordered(
                    #[trigger] va[i],
                    #[trigger] va[j],
                ) && va[i] != va[j] by {
                    if j == va.len() - 1 {
                        assert(va[i] == before[i]);
                        let ghost last = before.last();
                        assert(last == original[consumed - 1]);
                        assert(T::ordered(last, xv));
                        if i < before.len() - 1 {
                            assert(T::ordered(before[i], last) && before[i] != last);
                            T::lemma_ordered_transitive(before[i], last, xv);
                            if before[i] == xv {
                                T::lemma_ordered_antisymmetric(last, xv);
                            }
                        } else {
                            if last == xv {
                                T::lemma_ordered_reflexive(xv);
                            }
                        }
                    } else {
                        assert(va[i] == before[i] && va[j] == before[j]);
                    }
                }
                assert forall|y: T::V| va.contains(y) <==> original.take(consumed + 1).contains(
                    y,
                ) by {
                    assert(original.take(consumed + 1) == original.take(consumed as int).push(xv));
                    assert(original.take(consumed + 1)[consumed as int] == xv);
                    if va.contains(y) {
                        let k = choose|k: int| 0 <= k < va.len() && va[k] == y;
                        if k < before.len() {
                            assert(before[k] == y);
                            assert(before.contains(y));
                            let m = choose|m: int|
                                0 <= m < consumed && original.take(consumed as int)[m] == y;
                            assert(original.take(consumed + 1)[m] == y);
                        }
                    }
                    if original.take(consumed as int).contains(y) {
                        assert(before.contains(y));
                        let k = choose|k: int| 0 <= k < before.len() && before[k] == y;
                        assert(va[k] == y);
                    }
                    if y == xv {
                        assert(va[va.len() - 1] == y);
                    }
                }
            }
        }
        proof {
            assert(views(input@) =~= original.skip(consumed + 1)) by {
                assert(input@ =~= prev.remove(0));
                assert forall|k: int| 0 <= k < views(input@).len() implies views(input@)[k]
                    == original.skip(consumed + 1)[k] by {
                    assert(input@[k] == prev[k + 1]);
                    assert(views(prev)[k + 1] == original.skip(consumed as int)[k + 1]);
                }
            }
        }
        consumed = consumed + 1;
    }
    proof {
        assert(original.take(consumed as int) =~= original);
    }
    out
}

/// Sorts into canonical order and removes duplicate values.
pub fn canonical_sort_dedup<T: TotalOrder>(v: Vec<T>) -> (out: Vec<T>)
    ensures
        is_strictly_canonical::<T>(views(out@)),
        forall|x: T::V| views(out@).contains(x) <==> views(v@).contains(x),
{
    let ghost original = v@;
    let sorted = canonical_sort(v);
    proof {
        assert forall|x: T::V| views(sorted@).contains(x) <==> views(original).contains(x) by {
            if views(sorted@).contains(x) {
                let k = choose|k: int| 0 <= k < views(sorted@).len() && views(sorted@)[k] == x;
                let e = sorted@[k];
                assert(sorted@.to_multiset().count(e) > 0) by {
                    broadcast use group_to_multiset_ensures;
                    assert(sorted@.contains(e));
                }
                assert(original.contains(e)) by {
                    broadcast use group_to_multiset_ensures;
                }
                let m = choose|m: int| 0 <= m < original.len() && original[m] == e;
                assert(views(original)[m] == x);
            }
            if views(original).contains(x) {
                let k = choose|k: int| 0 <= k < views(original).len() && views(original)[k] == x;
                let e = original[k];
                assert(original.to_multiset().count(e) > 0) by {
                    broadcast use group_to_multiset_ensures;
                    assert(original.contains(e));
                }
                assert(sorted@.contains(e)) by {
                    broadcast use group_to_multiset_ensures;
                }
                let m = choose|m: int| 0 <= m < sorted@.len() && sorted@[m] == e;
                assert(views(sorted@)[m] == x);
            }
        }
    }
    canonical_dedup(sorted)
}

/// Values identified by a text key.
pub trait Keyed: View + Sized {
    spec fn key_of(v: Self::V) -> Seq<char>;

    fn key(&self) -> (k: &str)
        ensures
            k@ == Self::key_of(self@),
    ;
}

/// The keys of a sequence of values.
pub open spec fn keys<T: Keyed>(s: Seq<T>) -> Seq<Seq<char>> {
    s.map_values(|x: T| T::key_of(x@))
}

/// Keys are in non-decreasing order.
pub open spec fn keys_sorted<T: Keyed>(s: Seq<T>) -> bool {
    forall|i: int, j: int|
        0 <= i < j < s.len() ==> seq_le(#[trigger] keys(s)[i], #[trigger] keys(s)[j])
}

/// Keys are strictly increasing.
pub open spec fn keys_strictly_sorted<T: Keyed>(s: Seq<T>) -> bool {
    forall|i: int, j: int|
        0 <= i < j < s.len() ==> seq_lt(#[trigger] keys(s)[i], #[trigger] keys(s)[j])
}

/// Two distinct positions share a key.
pub open spec fn has_duplicate_key<T: Keyed>(s: Seq<T>) -> bool {
    exists|i: int, j: int|
        0 <= i < j < s.len() && #[trigger] keys(s)[i] == #[trigger] keys(s)[j]
}

/// `k` is the least key that occurs at two distinct positions.
pub open spec fn is_least_duplicate_key<T: Keyed>(s: Seq<T>, k: Seq<char>) -> bool {
    &&& exists|i: int, j: int|
        0 <= i < j < s.len() && #[trigger] keys(s)[i] == k && #[trigger] keys(s)[j] == k
    &&& forall|i: int, j: int|
        0 <= i < j < s.len() && #[trigger] keys(s)[i] == #[trigger] keys(s)[j] ==> seq_le(
            k,
            keys(s)[i],
        )
}

/// Finds the first adjacent pair with equal keys in a key-sorted vector.
pub fn first_duplicate_key<T: Keyed>(v: &Vec<T>) -> (r: Option<usize>)
    requires
        keys_sorted(v@),
    ensures
        r is None ==> keys_strictly_sorted(v@) && !has_duplicate_key(v@),
        r matches Some(i) ==> i + 1 < v@.len() && keys(v@)[i as int] == keys(v@)[i + 1]
            && is_least_duplicate_key(v@, keys(v@)[i as int]),
{
    let ghost ks = keys(v@);
    if v.len() == 0 {
        return None;
    }
    let mut i: usize = 0;
    while i + 1 < v.len()
        invariant
            v.len() > 0,
            ks == keys(v@),
            keys_sorted(v@),
            i < v.len(),
            forall|a: int, b: int| 0 <= a < b <= i ==> seq_lt(#[trigger] ks[a], #[trigger] ks[b]),
        decreases v.len() - i,
    {
        let a = v[i].key();
        let b = v[i + 1].key();
        if text_eq(a, b) {
            proof {
                let k = ks[i as int];
                assert forall|p: int, q: int|
                    0 <= p < q < v@.len() && #[trigger] ks[p] == #[trigger] ks[q] implies seq_le(
                    k,
                    ks[p],
                ) by {
                    if q <= i {
                        assert(seq_lt(ks[p], ks[q]));
                    } else if p < i {
                        assert(seq_le(ks[i + 1], ks[q]));
                        assert(seq_le(ks[p], ks[i as int]));
                        lemma_seq_le_transitive(ks[p], ks[i as int], ks[q]);
                        lemma_seq_le_antisymmetric(ks[p], ks[i as int]);
                    } else if p == i {
                        lemma_seq_le_reflexive(k);
                    } else {
                        assert(seq_le(ks[i + 1], ks[p]));
                    }
                }
                assert(ks[i as int] == k && ks[i + 1] == k);
            }
            return Some(i);
        }
        proof {
            assert(seq_le(ks[i as int], ks[i + 1]));
            assert forall|a: int, b: int| 0 <= a < b <= i + 1 implies seq_lt(
                #[trigger] ks[a],
                #[trigger] ks[b],
            ) by {
                if b == i + 1 && a < i {
                    assert(seq_lt(ks[a], ks[i as int]));
                    lemma_seq_le_transitive(ks[a], ks[i as int], ks[b]);
                    if ks[a] == ks[b] {
                        lemma_seq_le_antisymmetric(ks[a], ks[i as int]);
                    }
                }
            }
        }
        i = i + 1;
    }
    proof {
        assert forall|a: int, b: int| 0 <= a < b < v@.len() implies seq_lt(
            #[trigger] keys(v@)[a],
            #[trigger] keys(v@)[b],
        ) by {
            assert(b <= i);
        }
    }
    None
}

/// A value occurring at two distinct positions of one sequence occurs at two
/// distinct positions of any permutation of it.
pub proof fn lemma_permutation_pair<T>(a: Seq<T>, b: Seq<T>, i: int, j: int) -> (r: (int, int))
    requires
        a.to_multiset() == b.to_multiset(),
        0 <= i < j < a.len(),
    ensures
        0 <= r.0 < b.len(),
        0 <= r.1 < b.len(),
        r.0 != r.1,
        b[r.0] == a[i],
        b[r.1] == a[j],
{
    broadcast use group_to_multiset_ensures;

    let x = a[i];
    let y = a[j];
    assert(a.contains(x));
    assert(a.contains(y));
    assert(b.to_multiset().count(x) > 0);
    assert(b.to_multiset().count(y) > 0);
    assert(b.contains(x));
    let p = choose|p: int| 0 <= p < b.len() && b[p] == x;
    if x != y {
        assert(b.contains(y));
        let q = choose|q: int| 0 <= q < b.len() && b[q] == y;
        (p, q)
    } else {
        let ar = a.remove(j);
        assert(ar[i] == x);
        assert(ar.contains(x));
        assert(ar.to_multiset().count(x) > 0);
        assert(ar.to_multiset() == a.to_multiset().remove(a[j]));
        assert(a.to_multiset().count(x) >= 2);
        let br = b.remove(p);
        assert(br.to_multiset() == b.to_multiset().remove(b[p]));
        assert(br.to_multiset().count(x) >= 1);
        assert(br.contains(x));
        let q0 = choose|q0: int| 0 <= q0 < br.len() && br[q0] == x;
        let q = if q0 < p {
            q0
        } else {
            q0 + 1
        };
        assert(b[q] == br[q0]);
        (p, q)
    }
}

/// Duplicate keys, and the least duplicate key, do not depend on order.
pub proof fn lemma_permutation_duplicate_keys<T: Keyed>(a: Seq<T>, b: Seq<T>)
    requires
        a.to_multiset() == b.to_multiset(),
    ensures
        has_duplicate_key(a) == has_duplicate_key(b),
        forall|k: Seq<char>| is_least_duplicate_key(a, k) == is_least_duplicate_key(b, k),
{
    lemma_permutation_duplicate_keys_one_way(a, b);
    lemma_permutation_duplicate_keys_one_way(b, a);
    assert forall|k: Seq<char>| is_least_duplicate_key(a, k) == is_least_duplicate_key(b, k) by {
        if is_least_duplicate_key(a, k) {
            lemma_permutation_least_one_way(a, b, k);
        }
        if is_least_duplicate_key(b, k) {
            lemma_permutation_least_one_way(b, a, k);
        }
    }
}

proof fn lemma_duplicate_transfer<T: Keyed>(a: Seq<T>, b: Seq<T>, i: int, j: int) -> (r: (
    int,
    int,
))
    requires
        a.to_multiset() == b.to_multiset(),
        0 <= i < j < a.len(),
        keys(a)[i] == keys(a)[j],
    ensures
        0 <= r.0 < r.1 < b.len(),
        keys(b)[r.0] == keys(a)[i],
        keys(b)[r.1] == keys(a)[i],
{
    let (p, q) = lemma_permutation_pair(a, b, i, j);
    assert(keys(b)[p] == T::key_of(b[p]@));
    assert(keys(b)[q] == T::key_of(b[q]@));
    if p < q {
        (p, q)
    } else {
        (q, p)
    }
}

proof fn lemma_permutation_duplicate_keys_one_way<T: Keyed>(a: Seq<T>, b: Seq<T>)
    requires
        a.to_multiset() == b.to_multiset(),
    ensures
        has_duplicate_key(a) ==> has_duplicate_key(b),
{
    if has_duplicate_key(a) {
        let (i, j) = choose|i: int, j: int|
            0 <= i < j < a.len() && #[trigger] keys(a)[i] == #[trigger] keys(a)[j];
        let (p, q) = lemma_duplicate_transfer(a, b, i, j);
        assert(keys(b)[p] == keys(b)[q]);
    }
}

proof fn lemma_permutation_least_one_way<T: Keyed>(a: Seq<T>, b: Seq<T>, k: Seq<char>)
    requires
        a.to_multiset() == b.to_multiset(),
        is_least_duplicate_key(a, k),
    ensures
        is_least_duplicate_key(b, k),
{
    let (i, j) = choose|i: int, j: int|
        0 <= i < j < a.len() && #[trigger] keys(a)[i] == k && #[trigger] keys(a)[j] == k;
    let (p, q) = lemma_duplicate_transfer(a, b, i, j);
    assert(keys(b)[p] == k && keys(b)[q] == k);
    assert forall|p2: int, q2: int|
        0 <= p2 < q2 < b.len() && #[trigger] keys(b)[p2] == #[trigger] keys(b)[q2] implies seq_le(
        k,
        keys(b)[p2],
    ) by {
        let (i2, j2) = lemma_duplicate_transfer(b, a, p2, q2);
        assert(keys(a)[i2] == keys(a)[j2]);
    }
}

/// Permutations have the same abstract values.
pub proof fn lemma_permutation_views<T: View>(a: Seq<T>, b: Seq<T>)
    requires
        a.to_multiset() == b.to_multiset(),
    ensures
        forall|x: T::V| views(a).contains(x) <==> views(b).contains(x),
{
    broadcast use group_to_multiset_ensures;

    assert forall|x: T::V| views(a).contains(x) implies views(b).contains(x) by {
        let k = choose|k: int| 0 <= k < views(a).len() && views(a)[k] == x;
        let e = a[k];
        assert(a.contains(e));
        assert(a.to_multiset().count(e) > 0);
        assert(b.contains(e));
        let m = choose|m: int| 0 <= m < b.len() && b[m] == e;
        assert(views(b)[m] == x);
    }
    assert forall|x: T::V| views(b).contains(x) implies views(a).contains(x) by {
        let k = choose|k: int| 0 <= k < views(b).len() && views(b)[k] == x;
        let e = b[k];
        assert(b.contains(e));
        assert(b.to_multiset().count(e) > 0);
        assert(a.contains(e));
        let m = choose|m: int| 0 <= m < a.len() && a[m] == e;
        assert(views(a)[m] == x);
    }
}

impl Keyed for String {
    open spec fn key_of(v: Seq<char>) -> Seq<char> {
        v
    }

    fn key(&self) -> (k: &str) {
        self.as_str()
    }
}

/// Lexicographic order over records encoded as sequences of text fields.
pub open spec fn fields_le(a: Seq<Seq<char>>, b: Seq<Seq<char>>) -> bool
    decreases a.len(),
{
    if a.len() == 0 {
        true
    } else if b.len() == 0 {
        false
    } else if seq_lt(a[0], b[0]) {
        true
    } else if seq_lt(b[0], a[0]) {
        false
    } else {
        fields_le(a.drop_first(), b.drop_first())
    }
}

/// A text field encoding an optional text: absent sorts before present.
pub open spec fn optional_field(o: Option<Seq<char>>) -> Seq<char> {
    match o {
        None => Seq::empty(),
        Some(s) => seq!['\0'] + s,
    }
}

/// A text field encoding a small rank; larger ranks sort later.
pub open spec fn rank_field(r: nat) -> Seq<char> {
    Seq::new(r, |i: int| 'a')
}

pub proof fn lemma_seq_eq_from_le(a: Seq<char>, b: Seq<char>)
    requires
        !seq_lt(a, b),
        !seq_lt(b, a),
    ensures
        a == b,
{
    lemma_seq_le_total(a, b);
    if seq_le(a, b) {
        assert(a == b);
    } else {
        assert(a == b);
    }
}

pub proof fn lemma_fields_le_reflexive(a: Seq<Seq<char>>)
    ensures
        fields_le(a, a),
    decreases a.len(),
{
    if a.len() > 0 {
        lemma_fields_le_reflexive(a.drop_first());
    }
}

pub proof fn lemma_fields_le_transitive(a: Seq<Seq<char>>, b: Seq<Seq<char>>, c: Seq<Seq<char>>)
    requires
        fields_le(a, b),
        fields_le(b, c),
    ensures
        fields_le(a, c),
    decreases a.len(),
{
    if a.len() > 0 && b.len() > 0 && c.len() > 0 {
        if seq_lt(a[0], b[0]) {
            if seq_lt(b[0], c[0]) {
                lemma_seq_le_transitive(a[0], b[0], c[0]);
                if a[0] == c[0] {
                    lemma_seq_le_antisymmetric(a[0], b[0]);
                }
            } else {
                lemma_seq_eq_from_le(b[0], c[0]);
            }
        } else {
            lemma_seq_eq_from_le(a[0], b[0]);
            if !seq_lt(b[0], c[0]) {
                lemma_seq_eq_from_le(b[0], c[0]);
                lemma_fields_le_transitive(a.drop_first(), b.drop_first(), c.drop_first());
            }
        }
    }
}

pub proof fn lemma_fields_le_total(a: Seq<Seq<char>>, b: Seq<Seq<char>>)
    ensures
        fields_le(a, b) || fields_le(b, a),
    decreases a.len(),
{
    if a.len() > 0 && b.len() > 0 && !seq_lt(a[0], b[0]) && !seq_lt(b[0], a[0]) {
        lemma_fields_le_total(a.drop_first(), b.drop_first());
    }
}

pub proof fn lemma_fields_le_antisymmetric(a: Seq<Seq<char>>, b: Seq<Seq<char>>)
    requires
        fields_le(a, b),
        fields_le(b, a),
    ensures
        a == b,
    decreases a.len(),
{
    if a.len() > 0 && b.len() > 0 {
        if seq_lt(a[0], b[0]) && seq_lt(b[0], a[0]) {
            lemma_seq_le_antisymmetric(a[0], b[0]);
        }
        lemma_seq_eq_from_le(a[0], b[0]);
        lemma_fields_le_antisymmetric(a.drop_first(), b.drop_first());
        assert(a =~= seq![a[0]] + a.drop_first());
        assert(b =~= seq![b[0]] + b.drop_first());
    }
}

/// Decides `fields_le`.
pub fn fields_le_exec(a: &Vec<Vec<char>>, b: &Vec<Vec<char>>) -> (r: bool)
    ensures
        r == fields_le(a@.map_values(|f: Vec<char>| f@), b@.map_values(|f: Vec<char>| f@)),
{
    let ghost x = a@.map_values(|f: Vec<char>| f@);
    let ghost y = b@.map_values(|f: Vec<char>| f@);
    let mut i: usize = 0;
    assert(x.skip(0) =~= x);
    assert(y.skip(0) =~= y);
    while i < a.len() && i < b.len()
        invariant
            i <= a@.len(),
            i <= b@.len(),
            x == a@.map_values(|f: Vec<char>| f@),
            y == b@.map_values(|f: Vec<char>| f@),
            fields_le(x, y) == fields_le(x.skip(i as int), y.skip(i as int)),
        decreases a.len() - i,
    {
        assert(x.skip(i as int)[0] == a@[i as int]@);
        assert(y.skip(i as int)[0] == b@[i as int]@);
        let ab = crate::text::chars_le(&a[i], &b[i]);
        let ba = crate::text::chars_le(&b[i], &a[i]);
        let eq = crate::text::chars_eq(&a[i], &b[i]);
        if ab && !eq {
            return true;
        }
        if ba && !eq {
            return false;
        }
        proof {
            if !eq {
                lemma_seq_le_total(a@[i as int]@, b@[i as int]@);
            }
        }
        assert(x.skip(i as int).drop_first() =~= x.skip(i + 1));
        assert(y.skip(i as int).drop_first() =~= y.skip(i + 1));
        i = i + 1;
    }
    i == a.len()
}

/// Encodes an optional text as `optional_field`.
pub fn optional_field_exec(o: &Option<String>) -> (r: Vec<char>)
    ensures
        r@ == optional_field(o.deep_view()),
{
    match o {
        None => Vec::new(),
        Some(s) => {
            let body = crate::text::chars_of(s.as_str());
            let mut out: Vec<char> = Vec::new();
            out.push('\0');
            let mut i: usize = 0;
            while i < body.len()
                invariant
                    i <= body@.len(),
                    out@ == seq!['\0'] + body@.take(i as int),
                decreases body.len() - i,
            {
                out.push(body[i]);
                assert(body@.take(i + 1) =~= body@.take(i as int).push(body@[i as int]));
                assert(out@ =~= seq!['\0'] + body@.take(i + 1));
                i = i + 1;
            }
            assert(body@.take(body@.len() as int) =~= body@);
            out
        },
    }
}

/// Encodes a rank as `rank_field`.
pub fn rank_field_exec(r: u8) -> (out: Vec<char>)
    ensures
        out@ == rank_field(r as nat),
{
    let mut out: Vec<char> = Vec::new();
    let mut i: u8 = 0;
    while i < r
        invariant
            i <= r,
            out@ == rank_field(i as nat),
        decreases r - i,
    {
        out.push('a');
        assert(out@ =~= rank_field((i + 1) as nat));
        i = i + 1;
    }
    out
}

/// The abstract values after a push.
/// Mapping views commutes with appending.
pub proof fn lemma_views_push_seq<T: View>(s: Seq<T>, e: T)
    ensures
        views(s.push(e)) == views(s).push(e@),
{
    assert(views(s.push(e)) =~= views(s).push(e@));
}

pub proof fn lemma_views_push<T: View>(s: Seq<T>, e: T)
    ensures
        forall|x: T::V| views(s.push(e)).contains(x) <==> (views(s).contains(x) || x == e@),
{
    let t = s.push(e);
    assert forall|x: T::V| views(t).contains(x) <==> (views(s).contains(x) || x == e@) by {
        if views(t).contains(x) {
            let k = choose|k: int| 0 <= k < views(t).len() && views(t)[k] == x;
            if k < s.len() {
                assert(views(s)[k] == x);
            }
        }
        if views(s).contains(x) {
            let k = choose|k: int| 0 <= k < views(s).len() && views(s)[k] == x;
            assert(views(t)[k] == x);
        }
        if x == e@ {
            assert(views(t)[s.len() as int] == x);
        }
    }
}

/// Strict lexicographic order over field lists.
pub open spec fn fields_lt(a: Seq<Seq<char>>, b: Seq<Seq<char>>) -> bool {
    fields_le(a, b) && a != b
}

proof fn lemma_fields_eq_from_le(a: Seq<Seq<char>>, b: Seq<Seq<char>>)
    requires
        !fields_lt(a, b),
        !fields_lt(b, a),
    ensures
        a == b,
{
    lemma_fields_le_total(a, b);
}

/// Lexicographic order over records whose fields are field lists (a text
/// field is a one-element list; a list-valued field is compared as a list).
pub open spec fn groups_le(a: Seq<Seq<Seq<char>>>, b: Seq<Seq<Seq<char>>>) -> bool
    decreases a.len(),
{
    if a.len() == 0 {
        true
    } else if b.len() == 0 {
        false
    } else if fields_lt(a[0], b[0]) {
        true
    } else if fields_lt(b[0], a[0]) {
        false
    } else {
        groups_le(a.drop_first(), b.drop_first())
    }
}

pub proof fn lemma_groups_le_reflexive(a: Seq<Seq<Seq<char>>>)
    ensures
        groups_le(a, a),
    decreases a.len(),
{
    if a.len() > 0 {
        lemma_groups_le_reflexive(a.drop_first());
    }
}

pub proof fn lemma_groups_le_transitive(
    a: Seq<Seq<Seq<char>>>,
    b: Seq<Seq<Seq<char>>>,
    c: Seq<Seq<Seq<char>>>,
)
    requires
        groups_le(a, b),
        groups_le(b, c),
    ensures
        groups_le(a, c),
    decreases a.len(),
{
    if a.len() > 0 && b.len() > 0 && c.len() > 0 {
        if fields_lt(a[0], b[0]) {
            if fields_lt(b[0], c[0]) {
                lemma_fields_le_transitive(a[0], b[0], c[0]);
                if a[0] == c[0] {
                    lemma_fields_le_antisymmetric(a[0], b[0]);
                }
            } else {
                lemma_fields_eq_from_le(b[0], c[0]);
            }
        } else {
            lemma_fields_eq_from_le(a[0], b[0]);
            if !fields_lt(b[0], c[0]) {
                lemma_fields_eq_from_le(b[0], c[0]);
                lemma_groups_le_transitive(a.drop_first(), b.drop_first(), c.drop_first());
            }
        }
    }
}

pub proof fn lemma_groups_le_total(a: Seq<Seq<Seq<char>>>, b: Seq<Seq<Seq<char>>>)
    ensures
        groups_le(a, b) || groups_le(b, a),
    decreases a.len(),
{
    if a.len() > 0 && b.len() > 0 && !fields_lt(a[0], b[0]) && !fields_lt(b[0], a[0]) {
        lemma_groups_le_total(a.drop_first(), b.drop_first());
    }
}

pub proof fn lemma_groups_le_antisymmetric(a: Seq<Seq<Seq<char>>>, b: Seq<Seq<Seq<char>>>)
    requires
        groups_le(a, b),
        groups_le(b, a),
    ensures
        a == b,
    decreases a.len(),
{
    if a.len() > 0 && b.len() > 0 {
        if fields_lt(a[0], b[0]) && fields_lt(b[0], a[0]) {
            lemma_fields_le_antisymmetric(a[0], b[0]);
        }
        lemma_fields_eq_from_le(a[0], b[0]);
        lemma_groups_le_antisymmetric(a.drop_first(), b.drop_first());
        assert(a =~= seq![a[0]] + a.drop_first());
        assert(b =~= seq![b[0]] + b.drop_first());
    }
}

/// The character views of a list of field lists.
pub open spec fn group_views(g: Seq<Vec<Vec<char>>>) -> Seq<Seq<Seq<char>>> {
    g.map_values(|f: Vec<Vec<char>>| f@.map_values(|c: Vec<char>| c@))
}

/// Decides `groups_le`.
pub fn groups_le_exec(a: &Vec<Vec<Vec<char>>>, b: &Vec<Vec<Vec<char>>>) -> (r: bool)
    ensures
        r == groups_le(group_views(a@), group_views(b@)),
    decreases a@.len(),
{
    let ghost x = group_views(a@);
    let ghost y = group_views(b@);
    assert(x.skip(0) =~= x);
    assert(y.skip(0) =~= y);
    let mut i: usize = 0;
    while i < a.len()
        invariant
            x == group_views(a@),
            y == group_views(b@),
            i <= a@.len(),
            i <= b@.len(),
            groups_le(x, y) == groups_le(x.skip(i as int), y.skip(i as int)),
        decreases a.len() - i,
    {
        if i >= b.len() {
            assert(y.skip(i as int).len() == 0);
            return false;
        }
        let xi = &a[i];
        let yi = &b[i];
        assert(x.skip(i as int)[0] == xi@.map_values(|c: Vec<char>| c@));
        assert(y.skip(i as int)[0] == yi@.map_values(|c: Vec<char>| c@));
        assert(x.skip(i as int).drop_first() =~= x.skip(i + 1));
        assert(y.skip(i as int).drop_first() =~= y.skip(i + 1));
        let le = fields_le_exec(xi, yi);
        let ge = fields_le_exec(yi, xi);
        proof {
            let p = xi@.map_values(|c: Vec<char>| c@);
            let q = yi@.map_values(|c: Vec<char>| c@);
            if le && ge {
                lemma_fields_le_antisymmetric(p, q);
            }
            if le && p == q {
                assert(ge);
            }
        }
        if le && !ge {
            return true;
        }
        if ge && !le {
            return false;
        }
        i = i + 1;
    }
    true
}

/// The one-element field list of a text.
pub open spec fn single(s: Seq<char>) -> Seq<Seq<char>> {
    seq![s]
}

/// Builds the one-element field list of a text.
pub fn single_exec(s: &str) -> (r: Vec<Vec<char>>)
    ensures
        r@.map_values(|c: Vec<char>| c@) == single(s@),
{
    let mut r: Vec<Vec<char>> = Vec::new();
    r.push(crate::text::chars_of(s));
    assert(r@.map_values(|c: Vec<char>| c@) =~= single(s@));
    r
}

/// Builds the field list of a sequence of texts.
pub fn texts_exec(v: &[String]) -> (r: Vec<Vec<char>>)
    ensures
        r@.map_values(|c: Vec<char>| c@) == crate::text::texts(v@),
{
    let mut r: Vec<Vec<char>> = Vec::new();
    let mut i: usize = 0;
    while i < v.len()
        invariant
            i <= v@.len(),
            r@.map_values(|c: Vec<char>| c@) == crate::text::texts(v@).take(i as int),
        decreases v.len() - i,
    {
        let c = crate::text::chars_of(v[i].as_str());
        let ghost old = r@;
        r.push(c);
        assert(r@.map_values(|c: Vec<char>| c@) =~= old.map_values(|c: Vec<char>| c@).push(v@[i as int]@));
        assert(crate::text::texts(v@).take(i + 1) =~= crate::text::texts(v@).take(i as int).push(v@[i as int]@));
        i = i + 1;
    }
    assert(crate::text::texts(v@).take(v@.len() as int) =~= crate::text::texts(v@));
    r
}


/// The strictly canonical sequence holding exactly the values of `s`.
pub open spec fn canonical_set<T: TotalOrder>(s: Seq<T::V>) -> Seq<T::V> {
    choose|p: Seq<T::V>| is_strictly_canonical::<T>(p) && forall|x: T::V| p.contains(x) <==> s.contains(x)
}

/// Two strictly canonical sequences with the same values are equal.
pub proof fn lemma_strictly_canonical_unique<T: TotalOrder>(a: Seq<T::V>, b: Seq<T::V>)
    requires
        is_strictly_canonical::<T>(a),
        is_strictly_canonical::<T>(b),
        forall|x: T::V| a.contains(x) <==> b.contains(x),
    ensures
        a == b,
    decreases a.len(),
{
    if a.len() == 0 {
        if b.len() > 0 {
            assert(b.contains(b[0]));
        }
        assert(a =~= b);
    } else {
        assert(a.contains(a[0]));
        assert(b.len() > 0);
        assert(b.contains(b[0]));
        let i = choose|i: int| 0 <= i < b.len() && b[i] == a[0];
        let j = choose|j: int| 0 <= j < a.len() && a[j] == b[0];
        if i > 0 {
            assert(T::ordered(b[0], b[i]));
        } else {
            T::lemma_ordered_reflexive(b[0]);
        }
        if j > 0 {
            assert(T::ordered(a[0], a[j]));
        } else {
            T::lemma_ordered_reflexive(a[0]);
        }
        T::lemma_ordered_antisymmetric(a[0], b[0]);
        let ta = a.drop_first();
        let tb = b.drop_first();
        assert forall|x: T::V| ta.contains(x) <==> tb.contains(x) by {
            if ta.contains(x) {
                let k = choose|k: int| 0 <= k < ta.len() && ta[k] == x;
                assert(a[k + 1] == x);
                assert(a[0] != a[k + 1]);
                assert(b.contains(x));
                let m = choose|m: int| 0 <= m < b.len() && b[m] == x;
                assert(m != 0);
                assert(tb[m - 1] == x);
            }
            if tb.contains(x) {
                let k = choose|k: int| 0 <= k < tb.len() && tb[k] == x;
                assert(b[k + 1] == x);
                assert(b[0] != b[k + 1]);
                assert(a.contains(x));
                let m = choose|m: int| 0 <= m < a.len() && a[m] == x;
                assert(m != 0);
                assert(ta[m - 1] == x);
            }
        }
        assert(is_strictly_canonical::<T>(ta)) by {
            assert forall|p: int, q: int| 0 <= p < q < ta.len() implies T::ordered(#[trigger] ta[p], #[trigger] ta[q]) && ta[p] != ta[q] by {
                assert(ta[p] == a[p + 1] && ta[q] == a[q + 1]);
            }
        }
        assert(is_strictly_canonical::<T>(tb)) by {
            assert forall|p: int, q: int| 0 <= p < q < tb.len() implies T::ordered(#[trigger] tb[p], #[trigger] tb[q]) && tb[p] != tb[q] by {
                assert(tb[p] == b[p + 1] && tb[q] == b[q + 1]);
            }
        }
        lemma_strictly_canonical_unique::<T>(ta, tb);
        assert(a =~= seq![a[0]] + ta);
        assert(b =~= seq![b[0]] + tb);
    }
}

/// Inserts a value into a canonical sequence at its canonical position.
pub open spec fn canonical_insert<T: TotalOrder>(p: Seq<T::V>, x: T::V) -> Seq<T::V>
    decreases p.len(),
{
    if p.len() == 0 {
        seq![x]
    } else if T::ordered(x, p[0]) {
        seq![x] + p
    } else {
        seq![p[0]] + canonical_insert::<T>(p.drop_first(), x)
    }
}

proof fn lemma_canonical_insert<T: TotalOrder>(p: Seq<T::V>, x: T::V)
    requires
        is_strictly_canonical::<T>(p),
        !p.contains(x),
    ensures
        is_strictly_canonical::<T>(canonical_insert::<T>(p, x)),
        forall|y: T::V| canonical_insert::<T>(p, x).contains(y) <==> (p.contains(y) || y == x),
    decreases p.len(),
{
    let q = canonical_insert::<T>(p, x);
    if p.len() == 0 {
        assert(q =~= seq![x]);
        assert forall|y: T::V| q.contains(y) <==> (p.contains(y) || y == x) by {
            if q.contains(y) {
                assert(q[0] == y);
            }
            if y == x {
                assert(q[0] == y);
            }
        }
    } else if T::ordered(x, p[0]) {
        assert(q =~= seq![x] + p);
        assert forall|i: int, j: int| 0 <= i < j < q.len() implies T::ordered(#[trigger] q[i], #[trigger] q[j]) && q[i] != q[j] by {
            if i == 0 {
                assert(q[j] == p[j - 1]);
                assert(p.contains(p[j - 1]));
                if j - 1 > 0 {
                    assert(T::ordered(p[0], p[j - 1]));
                    T::lemma_ordered_transitive(x, p[0], p[j - 1]);
                }
            } else {
                assert(q[i] == p[i - 1] && q[j] == p[j - 1]);
            }
        }
        assert forall|y: T::V| q.contains(y) <==> (p.contains(y) || y == x) by {
            if q.contains(y) {
                let k = choose|k: int| 0 <= k < q.len() && q[k] == y;
                if k > 0 {
                    assert(p[k - 1] == y);
                }
            }
            if p.contains(y) {
                let k = choose|k: int| 0 <= k < p.len() && p[k] == y;
                assert(q[k + 1] == y);
            }
            if y == x {
                assert(q[0] == y);
            }
        }
    } else {
        T::lemma_ordered_total(x, p[0]);
        assert(p.contains(p[0]));
        let t = p.drop_first();
        assert(is_strictly_canonical::<T>(t)) by {
            assert forall|i: int, j: int| 0 <= i < j < t.len() implies T::ordered(#[trigger] t[i], #[trigger] t[j]) && t[i] != t[j] by {
                assert(t[i] == p[i + 1] && t[j] == p[j + 1]);
            }
        }
        assert(!t.contains(x)) by {
            if t.contains(x) {
                let k = choose|k: int| 0 <= k < t.len() && t[k] == x;
                assert(p[k + 1] == x);
            }
        }
        lemma_canonical_insert::<T>(t, x);
        let r = canonical_insert::<T>(t, x);
        assert(q =~= seq![p[0]] + r);
        assert forall|i: int, j: int| 0 <= i < j < q.len() implies T::ordered(#[trigger] q[i], #[trigger] q[j]) && q[i] != q[j] by {
            if i == 0 {
                assert(q[j] == r[j - 1]);
                assert(r.contains(r[j - 1]));
                if r[j - 1] == x {
                } else {
                    assert(t.contains(r[j - 1]));
                    let k = choose|k: int| 0 <= k < t.len() && t[k] == r[j - 1];
                    assert(p[k + 1] == r[j - 1]);
                }
            } else {
                assert(q[i] == r[i - 1] && q[j] == r[j - 1]);
            }
        }
        assert forall|y: T::V| q.contains(y) <==> (p.contains(y) || y == x) by {
            if q.contains(y) {
                let k = choose|k: int| 0 <= k < q.len() && q[k] == y;
                if k > 0 {
                    assert(r[k - 1] == y);
                    assert(r.contains(y));
                    if y != x {
                        assert(t.contains(y));
                        let m = choose|m: int| 0 <= m < t.len() && t[m] == y;
                        assert(t[m] == p[m + 1]);
                        assert(p.contains(y));
                    }
                } else {
                    assert(q[0] == p[0]);
                    assert(p.contains(y));
                }
            }
            if p.contains(y) {
                let k = choose|k: int| 0 <= k < p.len() && p[k] == y;
                if k == 0 {
                    assert(q[0] == y);
                } else {
                    assert(t[k - 1] == y);
                    assert(t.contains(y));
                    assert(r.contains(y));
                    let m = choose|m: int| 0 <= m < r.len() && r[m] == y;
                    assert(q[m + 1] == y);
                }
            }
            if y == x {
                assert(r.contains(x));
                let m = choose|m: int| 0 <= m < r.len() && r[m] == x;
                assert(q[m + 1] == x);
            }
        }
    }
}

proof fn canonical_witness<T: TotalOrder>(s: Seq<T::V>) -> (p: Seq<T::V>)
    ensures
        is_strictly_canonical::<T>(p),
        forall|x: T::V| p.contains(x) <==> s.contains(x),
    decreases s.len(),
{
    if s.len() == 0 {
        Seq::empty()
    } else {
        let init = s.drop_last();
        let x = s.last();
        let p = canonical_witness::<T>(init);
        assert forall|y: T::V| s.contains(y) <==> (init.contains(y) || y == x) by {
            if s.contains(y) {
                let k = choose|k: int| 0 <= k < s.len() && s[k] == y;
                if k < s.len() - 1 {
                    assert(init[k] == y);
                }
            }
            if init.contains(y) {
                let k = choose|k: int| 0 <= k < init.len() && init[k] == y;
                assert(s[k] == y);
            }
            if y == x {
                assert(s[s.len() - 1] == y);
            }
        }
        if p.contains(x) {
            p
        } else {
            lemma_canonical_insert::<T>(p, x);
            canonical_insert::<T>(p, x)
        }
    }
}

/// The canonical set of a sequence is strictly canonical and holds exactly
/// the values of the sequence.
pub proof fn lemma_canonical_set<T: TotalOrder>(s: Seq<T::V>)
    ensures
        is_strictly_canonical::<T>(canonical_set::<T>(s)),
        forall|x: T::V| canonical_set::<T>(s).contains(x) <==> s.contains(x),
        canonical_set::<T>(s).len() == 0 <==> s.len() == 0,
{
    let w = canonical_witness::<T>(s);
    assert(is_strictly_canonical::<T>(w) && forall|x: T::V| w.contains(x) <==> s.contains(x));
    let c = canonical_set::<T>(s);
    if s.len() > 0 {
        assert(s.contains(s[0]));
        assert(c.contains(s[0]));
    }
    if c.len() > 0 {
        assert(c.contains(c[0]));
    }
}

/// Sorts into canonical order, removes duplicates, and names the result.
pub fn canonical_set_exec<T: TotalOrder>(v: Vec<T>) -> (out: Vec<T>)
    ensures
        views(out@) == canonical_set::<T>(views(v@)),
        is_strictly_canonical::<T>(views(out@)),
        forall|x: T::V| views(out@).contains(x) <==> views(v@).contains(x),
{
    let ghost original = views(v@);
    let out = canonical_sort_dedup(v);
    proof {
        let c = canonical_set::<T>(original);
        assert(is_strictly_canonical::<T>(c) && forall|x: T::V| c.contains(x) <==> original.contains(x));
        lemma_strictly_canonical_unique::<T>(views(out@), c);
    }
    out
}

/// Rearranging values rearranges their views.
pub proof fn lemma_views_permutation<T: View>(a: Seq<T>, b: Seq<T>)
    requires
        a.to_multiset() == b.to_multiset(),
    ensures
        views(a).to_multiset() == views(b).to_multiset(),
    decreases a.len(),
{
    broadcast use group_to_multiset_ensures;
    broadcast use vstd::seq_lib::to_multiset_remove;

    if a.len() == 0 {
        assert(b.to_multiset().len() == 0);
        assert(b.len() == 0);
        assert(views(a) =~= views(b));
    } else {
        let x = a.last();
        assert(a.to_multiset().count(x) > 0) by {
            assert(a.contains(x)) by {
                assert(a[a.len() - 1] == x);
            }
        }
        assert(b.contains(x));
        let i = choose|i: int| 0 <= i < b.len() && b[i] == x;
        let a0 = a.drop_last();
        let b0 = b.remove(i);
        assert(a =~= a0.push(x));
        assert(a0.to_multiset() == b0.to_multiset()) by {
            assert(a.to_multiset() == a0.to_multiset().insert(x));
            assert(b0.to_multiset() == b.to_multiset().remove(x));
            assert(a0.to_multiset() =~= a0.to_multiset().insert(x).remove(x));
        }
        lemma_views_permutation(a0, b0);
        assert(views(a) =~= views(a0).push(x@));
        assert(views(b0) =~= views(b).remove(i));
        assert(views(b)[i] == x@);
        assert(views(b0).to_multiset() == views(b).to_multiset().remove(x@));
        assert(views(b).to_multiset().count(x@) > 0) by {
            assert(views(b).contains(x@));
        }
        assert(views(a).to_multiset() == views(a0).to_multiset().insert(x@));
        assert(views(b).to_multiset() =~= views(b).to_multiset().remove(x@).insert(x@));
    }
}

} // verus!

verus! {

/// A text field encoding a 32-bit number as its four big-endian bytes, so
/// that field order is numeric order.
#[verifier::opaque]
pub open spec fn number_field(n: u32) -> Seq<char> {
    seq![
        ((n >> 24u32) & 0xffu32) as u8 as char,
        ((n >> 16u32) & 0xffu32) as u8 as char,
        ((n >> 8u32) & 0xffu32) as u8 as char,
        (n & 0xffu32) as u8 as char
    ]
}

pub proof fn lemma_number_field_order(a: u32, b: u32)
    ensures
        seq_le(number_field(a), number_field(b)) <==> a <= b,
{
    let a3 = (a >> 24u32) & 0xffu32;
    let a2 = (a >> 16u32) & 0xffu32;
    let a1 = (a >> 8u32) & 0xffu32;
    let a0 = a & 0xffu32;
    let b3 = (b >> 24u32) & 0xffu32;
    let b2 = (b >> 16u32) & 0xffu32;
    let b1 = (b >> 8u32) & 0xffu32;
    let b0 = b & 0xffu32;
    assert(a <= b <==> (a3 < b3 || (a3 == b3 && (a2 < b2 || (a2 == b2 && (a1 < b1 || (a1 == b1 && a0 <= b0))))))) by (bit_vector)
        requires
            a3 == (a >> 24u32) & 0xffu32,
            a2 == (a >> 16u32) & 0xffu32,
            a1 == (a >> 8u32) & 0xffu32,
            a0 == a & 0xffu32,
            b3 == (b >> 24u32) & 0xffu32,
            b2 == (b >> 16u32) & 0xffu32,
            b1 == (b >> 8u32) & 0xffu32,
            b0 == b & 0xffu32,
    ;
    assert(a3 < 256 && a2 < 256 && a1 < 256 && a0 < 256) by (bit_vector)
        requires
            a3 == (a >> 24u32) & 0xffu32,
            a2 == (a >> 16u32) & 0xffu32,
            a1 == (a >> 8u32) & 0xffu32,
            a0 == a & 0xffu32,
    ;
    assert(b3 < 256 && b2 < 256 && b1 < 256 && b0 < 256) by (bit_vector)
        requires
            b3 == (b >> 24u32) & 0xffu32,
            b2 == (b >> 16u32) & 0xffu32,
            b1 == (b >> 8u32) & 0xffu32,
            b0 == b & 0xffu32,
    ;
    reveal(number_field);
    let x = number_field(a);
    let y = number_field(b);
    assert(x[0] as int == a3 && x[1] as int == a2 && x[2] as int == a1 && x[3] as int == a0);
    assert(y[0] as int == b3 && y[1] as int == b2 && y[2] as int == b1 && y[3] as int == b0);
    assert(x.drop_first()[0] == x[1] && x.drop_first().drop_first()[0] == x[2]);
    assert(x.drop_first().drop_first().drop_first()[0] == x[3]);
    assert(y.drop_first()[0] == y[1] && y.drop_first().drop_first()[0] == y[2]);
    assert(y.drop_first().drop_first().drop_first()[0] == y[3]);
    assert(x.drop_first().drop_first().drop_first().drop_first().len() == 0);
    reveal_with_fuel(seq_le, 5);
}

pub proof fn lemma_number_field_len(n: u32)
    ensures
        number_field(n).len() == 4,
{
    reveal(number_field);
}

/// Encodes `number_field`.
pub fn number_field_exec(n: u32) -> (out: Vec<char>)
    ensures
        out@ == number_field(n),
{
    let mut out: Vec<char> = Vec::new();
    out.push(((n >> 24u32) & 0xffu32) as u8 as char);
    out.push(((n >> 16u32) & 0xffu32) as u8 as char);
    out.push(((n >> 8u32) & 0xffu32) as u8 as char);
    out.push((n & 0xffu32) as u8 as char);
    reveal(number_field);
    assert(out@ =~= number_field(n));
    out
}

} // verus!
