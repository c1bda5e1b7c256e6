//! Ordering inputs by a text key, refusing repeated keys.

use vstd::prelude::*;

use crate::text::{
    copy_text, lemma_seq_le_antisymmetric, lemma_seq_le_reflexive, lemma_seq_le_total, lemma_seq_le_transitive,
    seq_le, seq_lt, text_eq, text_lt,
};

verus! {

/// A value identified by a text key.
pub trait KeyedItem {
    spec fn item_key(&self) -> Seq<char>;

    fn key_text(&self) -> (k: &str)
        ensures
            k@ == self.item_key(),
    ;
}

/// The keys of a sequence of values.
pub open spec fn item_keys<T: KeyedItem>(s: Seq<T>) -> Seq<Seq<char>> {
    s.map_values(|x: T| x.item_key())
}

/// Inserts position `x` after every position whose key does not exceed its own.
pub open spec fn insert_position(s: Seq<int>, keys: Seq<Seq<char>>, x: int) -> Seq<int>
    decreases s.len(),
{
    if s.len() == 0 {
        seq![x]
    } else if seq_lt(keys[x], keys[s.last()]) {
        insert_position(s.drop_last(), keys, x).push(s.last())
    } else {
        s.push(x)
    }
}

/// The positions `0..n` ordered by key, equal keys keeping position order.
pub open spec fn sorted_positions(keys: Seq<Seq<char>>, n: int) -> Seq<int>
    decreases n,
{
    if n <= 0 {
        Seq::empty()
    } else {
        insert_position(sorted_positions(keys, n - 1), keys, n - 1)
    }
}

/// The values in key order, equal keys keeping their given order.
pub open spec fn in_key_order<T: KeyedItem>(items: Seq<T>) -> Seq<T> {
    sorted_positions(item_keys(items), items.len() as int).map_values(|p: int| items[p])
}

/// Some key occurs at two positions.
pub open spec fn repeated_key(keys: Seq<Seq<char>>) -> bool {
    exists|i: int, j: int| 0 <= i < j < keys.len() && #[trigger] keys[i] == #[trigger] keys[j]
}

/// `k` is the least key that occurs at two positions.
pub open spec fn least_repeated_key(keys: Seq<Seq<char>>, k: Seq<char>) -> bool {
    &&& exists|i: int, j: int| 0 <= i < j < keys.len() && #[trigger] keys[i] == k && #[trigger] keys[j] == k
    &&& forall|i: int, j: int|
        0 <= i < j < keys.len() && #[trigger] keys[i] == #[trigger] keys[j] ==> seq_le(k, keys[i])
}

/// A sequence of positions that holds each of `0..n` exactly once, with keys
/// in non-decreasing order.
pub open spec fn ordered_permutation(s: Seq<int>, keys: Seq<Seq<char>>, n: int) -> bool {
    &&& s.len() == n
    &&& forall|a: int| 0 <= a < n ==> 0 <= #[trigger] s[a] < n
    &&& forall|a: int, b: int| 0 <= a < b < n ==> #[trigger] s[a] != #[trigger] s[b]
    &&& forall|p: int| 0 <= p < n ==> #[trigger] s.contains(p)
    &&& forall|a: int, b: int| 0 <= a < b < n ==> seq_le(#[trigger] keys[s[a]], #[trigger] keys[s[b]])
}

proof fn lemma_insert_position(s: Seq<int>, keys: Seq<Seq<char>>, x: int, j: int)
    requires
        0 <= j <= s.len(),
        forall|k: int| j <= k < s.len() ==> seq_lt(keys[x], #[trigger] keys[s[k]]),
        j == 0 || !seq_lt(keys[x], keys[s[j - 1]]),
    ensures
        insert_position(s, keys, x) == s.take(j).push(x) + s.skip(j),
    decreases s.len(),
{
    if s.len() == 0 {
        assert(s.take(j).push(x) + s.skip(j) =~= seq![x]);
    } else if j == s.len() {
        assert(s.take(j) =~= s);
        assert(s.skip(j) =~= Seq::<int>::empty());
        assert(s.take(j).push(x) + s.skip(j) =~= s.push(x));
    } else {
        let t = s.drop_last();
        assert(seq_lt(keys[x], keys[s[s.len() - 1]]));
        assert forall|k: int| j <= k < t.len() implies seq_lt(keys[x], #[trigger] keys[t[k]]) by {
            assert(t[k] == s[k]);
        }
        if j > 0 {
            assert(t[j - 1] == s[j - 1]);
        }
        lemma_insert_position(t, keys, x, j);
        assert(t.take(j).push(x) + t.skip(j) + seq![s.last()] =~= s.take(j).push(x) + s.skip(j));
        assert(insert_position(t, keys, x).push(s.last()) =~= t.take(j).push(x) + t.skip(j) + seq![s.last()]);
    }
}

pub proof fn lemma_sorted_positions(keys: Seq<Seq<char>>, n: int)
    requires
        0 <= n <= keys.len(),
    ensures
        ordered_permutation(sorted_positions(keys, n), keys, n),
    decreases n,
{
    if n > 0 {
        lemma_sorted_positions(keys, n - 1);
        let s = sorted_positions(keys, n - 1);
        let x = n - 1;
        // the insertion point: after the last position whose key does not exceed x's
        let j = insertion_point(s, keys, x, s.len() as int);
        lemma_insertion_point(s, keys, x, s.len() as int);
        lemma_insert_position(s, keys, x, j);
        let r = s.take(j).push(x) + s.skip(j);
        assert(r == sorted_positions(keys, n));
        assert forall|a: int| 0 <= a < n implies 0 <= #[trigger] r[a] < n by {
            if a < j {
                assert(r[a] == s[a]);
            } else if a > j {
                assert(r[a] == s[a - 1]);
            }
        }
        assert forall|a: int, b: int| 0 <= a < b < n implies #[trigger] r[a] != #[trigger] r[b] by {
            if a < j && b < j {
                assert(r[a] == s[a] && r[b] == s[b]);
            } else if a < j && b == j {
                assert(r[a] == s[a]);
            } else if a < j && b > j {
                assert(r[a] == s[a] && r[b] == s[b - 1]);
            } else if a == j {
                assert(r[b] == s[b - 1]);
            } else {
                assert(r[a] == s[a - 1] && r[b] == s[b - 1]);
            }
        }
        assert forall|p: int| 0 <= p < n implies #[trigger] r.contains(p) by {
            if p == x {
                assert(r[j] == x);
            } else {
                assert(s.contains(p));
                let a = choose|a: int| 0 <= a < s.len() && s[a] == p;
                if a < j {
                    assert(r[a] == p);
                } else {
                    assert(r[a + 1] == p);
                }
            }
        }
        assert forall|a: int, b: int| 0 <= a < b < n implies seq_le(#[trigger] keys[r[a]], #[trigger] keys[r[b]]) by {
            if a < j && b < j {
                assert(r[a] == s[a] && r[b] == s[b]);
            } else if a < j && b == j {
                assert(r[a] == s[a]);
                assert(!seq_lt(keys[x], keys[s[j - 1]]));
                lemma_seq_le_total(keys[x], keys[s[j - 1]]);
                if j - 1 > a {
                    lemma_seq_le_transitive(keys[s[a]], keys[s[j - 1]], keys[x]);
                }
            } else if a < j && b > j {
                assert(r[a] == s[a] && r[b] == s[b - 1]);
            } else if a == j {
                assert(r[b] == s[b - 1]);
                assert(seq_lt(keys[x], keys[s[b - 1]]));
            } else {
                assert(r[a] == s[a - 1] && r[b] == s[b - 1]);
            }
        }
    }
}

/// The insertion point of `x` among the first `j` positions of `s`, scanning
/// back from `j`.
pub open spec fn insertion_point(s: Seq<int>, keys: Seq<Seq<char>>, x: int, j: int) -> int
    decreases j,
{
    if j <= 0 {
        0
    } else if seq_lt(keys[x], keys[s[j - 1]]) {
        insertion_point(s, keys, x, j - 1)
    } else {
        j
    }
}

proof fn lemma_insertion_point(s: Seq<int>, keys: Seq<Seq<char>>, x: int, j: int)
    requires
        0 <= j <= s.len(),
    ensures
        0 <= insertion_point(s, keys, x, j) <= j,
        forall|k: int|
            insertion_point(s, keys, x, j) <= k < j ==> seq_lt(keys[x], #[trigger] keys[s[k]]),
        insertion_point(s, keys, x, j) == 0 || !seq_lt(keys[x], keys[s[insertion_point(s, keys, x, j) - 1]]),
    decreases j,
{
    if j > 0 && seq_lt(keys[x], keys[s[j - 1]]) {
        lemma_insertion_point(s, keys, x, j - 1);
    }
}

/// The positions of the values in key order, equal keys keeping their order.
pub fn positions_by_key<T: KeyedItem>(items: &[T]) -> (pos: Vec<usize>)
    ensures
        pos@.map_values(|p: usize| p as int) == sorted_positions(item_keys(items@), items@.len() as int),
{
    let ghost keys = item_keys(items@);
    let n = items.len();
    let mut pos: Vec<usize> = Vec::new();
    let mut i: usize = 0;
    while i < n
        invariant
            n == items@.len(),
            keys == item_keys(items@),
            i <= n,
            pos@.map_values(|p: usize| p as int) == sorted_positions(keys, i as int),
            forall|a: int| 0 <= a < pos@.len() ==> #[trigger] pos@[a] < i,
        decreases n - i,
    {
        proof {
            lemma_sorted_positions(keys, i as int);
        }
        let ghost s = pos@.map_values(|p: usize| p as int);
        let mut j = pos.len();
        while j > 0 && text_lt(items[i].key_text(), items[pos[j - 1]].key_text())
            invariant
                n == items@.len(),
                keys == item_keys(items@),
                i < n,
                s == pos@.map_values(|p: usize| p as int),
                forall|a: int| 0 <= a < pos@.len() ==> #[trigger] pos@[a] < i,
                j <= pos@.len(),
                forall|k: int| j <= k < s.len() ==> seq_lt(keys[i as int], #[trigger] keys[s[k]]),
            decreases j,
        {
            assert(s[j - 1] == pos@[j - 1] as int);
            j = j - 1;
        }
        proof {
            if j > 0 {
                assert(s[j - 1] == pos@[j - 1] as int);
            }
            lemma_insert_position(s, keys, i as int, j as int);
            assert(sorted_positions(keys, i + 1) == insert_position(s, keys, i as int));
        }
        pos.insert(j, i);
        proof {
            assert(pos@.map_values(|p: usize| p as int) =~= s.take(j as int).push(i as int) + s.skip(j as int));
        }
        i = i + 1;
    }
    pos
}

/// The positions of the items in key order, or the least key that repeats.
pub fn order_by_key<T: KeyedItem>(items: &[T]) -> (r: Result<Vec<usize>, String>)
    ensures
        match r {
            Ok(pos) => !repeated_key(item_keys(items@)) && pos@.map_values(|p: usize| p as int) == sorted_positions(
                item_keys(items@),
                items@.len() as int,
            ),
            Err(k) => least_repeated_key(item_keys(items@), k@),
        },
{
    let ghost keys = item_keys(items@);
    let n = items.len();
    let pos = positions_by_key(items);
    let ghost s = pos@.map_values(|p: usize| p as int);
    proof {
        lemma_sorted_positions(keys, n as int);
    }
    let mut a: usize = 0;
    while n > 0 && a < n - 1
        invariant
            n == items@.len(),
            keys == item_keys(items@),
            s == pos@.map_values(|p: usize| p as int),
            ordered_permutation(s, keys, n as int),
            a < n || n == 0,
            forall|b: int| 0 <= b < a ==> #[trigger] keys[s[b]] != keys[s[b + 1]],
        decreases n - a,
    {
        assert(s[a as int] == pos@[a as int] as int && s[a + 1] == pos@[a + 1] as int);
        if text_eq(items[pos[a]].key_text(), items[pos[a + 1]].key_text()) {
            let k = copy_text(items[pos[a]].key_text());
            proof {
                lemma_least_adjacent(s, keys, n as int, a as int);
                assert(keys.take(n as int) =~= keys);
            }
            return Err(k);
        }
        a = a + 1;
    }
    proof {
        lemma_no_adjacent_no_repeat(s, keys, n as int);
        assert(keys.take(n as int) =~= keys);
    }
    Ok(pos)
}

proof fn lemma_least_adjacent(s: Seq<int>, keys: Seq<Seq<char>>, n: int, a: int)
    requires
        ordered_permutation(s, keys, n),
        n <= keys.len(),
        0 <= a < a + 1 < n,
        keys[s[a]] == keys[s[a + 1]],
        forall|b: int| 0 <= b < a ==> #[trigger] keys[s[b]] != keys[s[b + 1]],
    ensures
        least_repeated_key(keys.take(n), keys[s[a]]),
{
    let k = keys[s[a]];
    let kt = keys.take(n);
    let (i, j) = if s[a] < s[a + 1] {
        (s[a], s[a + 1])
    } else {
        (s[a + 1], s[a])
    };
    assert(kt[i] == k && kt[j] == k);
    assert forall|i2: int, j2: int| 0 <= i2 < j2 < kt.len() && #[trigger] kt[i2] == #[trigger] kt[j2] implies seq_le(
        k,
        kt[i2],
    ) by {
        assert(s.contains(i2) && s.contains(j2));
        let p = choose|p: int| 0 <= p < s.len() && s[p] == i2;
        let q = choose|q: int| 0 <= q < s.len() && s[q] == j2;
        let (lo, hi) = if p < q {
            (p, q)
        } else {
            (q, p)
        };
        // every position between lo and hi carries the same key
        assert(keys[s[lo]] == keys[s[hi]]);
        assert(seq_le(keys[s[lo]], keys[s[lo + 1]]));
        if lo + 1 < hi {
            assert(seq_le(keys[s[lo + 1]], keys[s[hi]]));
        }
        lemma_seq_le_antisymmetric(keys[s[lo]], keys[s[lo + 1]]);
        assert(keys[s[lo]] == keys[s[lo + 1]]);
        if lo < a {
            assert(keys[s[lo]] != keys[s[lo + 1]]);
        }
        assert(lo >= a);
        if lo > a {
            assert(seq_le(keys[s[a]], keys[s[lo]]));
        } else {
            lemma_seq_le_reflexive(k);
        }
    }
}

proof fn lemma_no_adjacent_no_repeat(s: Seq<int>, keys: Seq<Seq<char>>, n: int)
    requires
        ordered_permutation(s, keys, n),
        n <= keys.len(),
        forall|b: int| 0 <= b < n - 1 ==> #[trigger] keys[s[b]] != keys[s[b + 1]],
    ensures
        !repeated_key(keys.take(n)),
{
    let kt = keys.take(n);
    if repeated_key(kt) {
        let (i, j) = choose|i: int, j: int| 0 <= i < j < kt.len() && #[trigger] kt[i] == #[trigger] kt[j];
        assert(s.contains(i) && s.contains(j));
        let p = choose|p: int| 0 <= p < s.len() && s[p] == i;
        let q = choose|q: int| 0 <= q < s.len() && s[q] == j;
        let (lo, hi) = if p < q {
            (p, q)
        } else {
            (q, p)
        };
        assert(seq_le(keys[s[lo]], keys[s[lo + 1]]));
        if lo + 1 < hi {
            assert(seq_le(keys[s[lo + 1]], keys[s[hi]]));
        }
        lemma_seq_le_antisymmetric(keys[s[lo]], keys[s[lo + 1]]);
        assert(keys[s[lo]] != keys[s[lo + 1]]);
    }
}

} // verus!
