//! Stable sorting by a key, as insertion sort: an element goes after every
//! element before it whose key is not greater.

use vstd::prelude::*;

verus! {

/// Where `x` goes into `s` (sorted by `key`), after every element whose key
/// is not greater than its own.
pub open spec fn insert_pos<A>(s: Seq<A>, x: A, key: spec_fn(A) -> int) -> int
    decreases s.len(),
{
    if s.len() == 0 {
        0
    } else if key(s.last()) > key(x) {
        insert_pos(s.drop_last(), x, key)
    } else {
        s.len() as int
    }
}

/// `s` sorted by `key`, elements of equal key in their order in `s`.
pub open spec fn sort_by_key<A>(s: Seq<A>, key: spec_fn(A) -> int) -> Seq<A>
    decreases s.len(),
{
    if s.len() == 0 {
        s
    } else {
        let t = sort_by_key(s.drop_last(), key);
        t.insert(insert_pos(t, s.last(), key), s.last())
    }
}

pub proof fn lemma_insert_pos_bounds<A>(s: Seq<A>, x: A, key: spec_fn(A) -> int)
    ensures
        0 <= insert_pos(s, x, key) <= s.len(),
    decreases s.len(),
{
    if s.len() > 0 && key(s.last()) > key(x) {
        lemma_insert_pos_bounds(s.drop_last(), x, key);
    }
}

pub proof fn lemma_sort_len<A>(s: Seq<A>, key: spec_fn(A) -> int)
    ensures
        sort_by_key(s, key).len() == s.len(),
    decreases s.len(),
{
    if s.len() > 0 {
        lemma_sort_len(s.drop_last(), key);
        lemma_insert_pos_bounds(sort_by_key(s.drop_last(), key), s.last(), key);
    }
}

/// `s` is in order of `key`.
pub open spec fn sorted_by<A>(s: Seq<A>, key: spec_fn(A) -> int) -> bool {
    forall|i: int, j: int| 0 <= i < j < s.len() ==> key(s[i]) <= key(s[j])
}

/// `s` is in strictly increasing order of `key`.
pub open spec fn strictly_sorted_by<A>(s: Seq<A>, key: spec_fn(A) -> int) -> bool {
    forall|i: int, j: int| 0 <= i < j < s.len() ==> key(s[i]) < key(s[j])
}

/// No two elements of `s` have the same key.
pub open spec fn distinct_keys<A>(s: Seq<A>, key: spec_fn(A) -> int) -> bool {
    forall|i: int, j: int| 0 <= i < s.len() && 0 <= j < s.len() && i != j ==> key(s[i]) != key(s[j])
}

/// In a sorted sequence, what comes before the place of `x` has a key that
/// is not greater than that of `x`, and what comes after it a greater one.
pub proof fn lemma_insert_pos_split<A>(t: Seq<A>, x: A, key: spec_fn(A) -> int)
    requires
        sorted_by(t, key),
    ensures
        forall|i: int| 0 <= i < insert_pos(t, x, key) ==> key(#[trigger] t[i]) <= key(x),
        forall|i: int| insert_pos(t, x, key) <= i < t.len() ==> key(#[trigger] t[i]) > key(x),
    decreases t.len(),
{
    lemma_insert_pos_bounds(t, x, key);
    if t.len() > 0 {
        if key(t.last()) > key(x) {
            let u = t.drop_last();
            lemma_insert_pos_split(u, x, key);
            assert forall|i: int| insert_pos(t, x, key) <= i < t.len() implies key(#[trigger] t[i]) > key(x) by {
                if i < u.len() {
                    assert(u[i] == t[i]);
                }
            }
            assert forall|i: int| 0 <= i < insert_pos(t, x, key) implies key(#[trigger] t[i]) <= key(x) by {
                assert(u[i] == t[i]);
            }
        } else {
            assert forall|i: int| 0 <= i < insert_pos(t, x, key) implies key(#[trigger] t[i]) <= key(x) by {
                if i < t.len() - 1 {
                    assert(key(t[i]) <= key(t[t.len() - 1]));
                }
            }
        }
    }
}

/// The sorted sequence is in order, holds only elements of `s`, and is in
/// strictly increasing order where the keys of `s` are distinct.
pub proof fn lemma_sort_sorted<A>(s: Seq<A>, key: spec_fn(A) -> int)
    ensures
        sorted_by(sort_by_key(s, key), key),
        forall|i: int| 0 <= i < sort_by_key(s, key).len() ==> s.contains(#[trigger] sort_by_key(s, key)[i]),
        distinct_keys(s, key) ==> strictly_sorted_by(sort_by_key(s, key), key),
    decreases s.len(),
{
    lemma_sort_len(s, key);
    if s.len() > 0 {
        let u = s.drop_last();
        let x = s.last();
        lemma_sort_sorted(u, key);
        lemma_sort_len(u, key);
        let t = sort_by_key(u, key);
        let p = insert_pos(t, x, key);
        lemma_insert_pos_bounds(t, x, key);
        lemma_insert_pos_split(t, x, key);
        let r = t.insert(p, x);
        assert(r == sort_by_key(s, key));
        assert forall|i: int| 0 <= i < r.len() implies s.contains(#[trigger] r[i]) by {
            if i == p {
                assert(s[s.len() - 1] == x);
            } else {
                let k = if i < p { i } else { i - 1 };
                assert(r[i] == t[k]);
                assert(u.contains(t[k]));
                let w = choose|w: int| 0 <= w < u.len() && u[w] == t[k];
                assert(s[w] == u[w]);
            }
        }
        assert forall|i: int, j: int| 0 <= i < j < r.len() implies key(r[i]) <= key(r[j]) by {
            if i < p && j < p {
                assert(r[i] == t[i] && r[j] == t[j]);
            } else if i < p && j == p {
                assert(r[i] == t[i]);
            } else if i < p {
                assert(r[i] == t[i] && r[j] == t[j - 1]);
            } else if i == p {
                assert(r[j] == t[j - 1]);
            } else {
                assert(r[i] == t[i - 1] && r[j] == t[j - 1]);
            }
        }
        if distinct_keys(s, key) {
            assert(distinct_keys(u, key)) by {
                assert forall|i: int, j: int| 0 <= i < u.len() && 0 <= j < u.len() && i != j implies key(u[i]) != key(u[j]) by {
                    assert(u[i] == s[i] && u[j] == s[j]);
                }
            }
            assert forall|k: int| 0 <= k < t.len() implies key(#[trigger] t[k]) != key(x) by {
                assert(u.contains(t[k]));
                let w = choose|w: int| 0 <= w < u.len() && u[w] == t[k];
                assert(s[w] == u[w]);
                assert(s[s.len() - 1] == x);
            }
            assert forall|i: int, j: int| 0 <= i < j < r.len() implies key(r[i]) < key(r[j]) by {
                if i < p && j < p {
                    assert(r[i] == t[i] && r[j] == t[j]);
                } else if i < p && j == p {
                    assert(r[i] == t[i]);
                } else if i < p {
                    assert(r[i] == t[i] && r[j] == t[j - 1]);
                } else if i == p {
                    assert(r[j] == t[j - 1]);
                } else {
                    assert(r[i] == t[i - 1] && r[j] == t[j - 1]);
                }
            }
        }
    }
}

/// Sorting what is in order already leaves it as it is.
pub proof fn lemma_sort_of_sorted<A>(s: Seq<A>, key: spec_fn(A) -> int)
    requires
        sorted_by(s, key),
    ensures
        sort_by_key(s, key) == s,
    decreases s.len(),
{
    if s.len() > 0 {
        let u = s.drop_last();
        assert(sorted_by(u, key)) by {
            assert forall|i: int, j: int| 0 <= i < j < u.len() implies key(u[i]) <= key(u[j]) by {
                assert(u[i] == s[i] && u[j] == s[j]);
            }
        }
        lemma_sort_of_sorted(u, key);
        if u.len() > 0 {
            assert(u.last() == s[s.len() - 2]);
        }
        assert(u.insert(u.len() as int, s.last()) =~= s);
    }
}

/// Every element of `s` is in the sorted sequence, and elements distinct
/// by a measure stay distinct by it.
pub proof fn lemma_sort_keeps_all<A>(s: Seq<A>, key: spec_fn(A) -> int, g: spec_fn(A) -> int)
    ensures
        forall|i: int| 0 <= i < s.len() ==> sort_by_key(s, key).contains(#[trigger] s[i]),
        distinct_keys(s, g) ==> distinct_keys(sort_by_key(s, key), g),
    decreases s.len(),
{
    lemma_sort_len(s, key);
    if s.len() > 0 {
        let u = s.drop_last();
        let x = s.last();
        lemma_sort_keeps_all(u, key, g);
        lemma_sort_sorted(u, key);
        lemma_sort_len(u, key);
        let t = sort_by_key(u, key);
        let p = insert_pos(t, x, key);
        lemma_insert_pos_bounds(t, x, key);
        let r = t.insert(p, x);
        assert(r == sort_by_key(s, key));
        assert forall|i: int| 0 <= i < s.len() implies r.contains(#[trigger] s[i]) by {
            if i == s.len() - 1 {
                assert(r[p] == x);
            } else {
                assert(u[i] == s[i]);
                assert(t.contains(u[i]));
                let w = choose|w: int| 0 <= w < t.len() && t[w] == u[i];
                if w < p {
                    assert(r[w] == t[w]);
                } else {
                    assert(r[w + 1] == t[w]);
                }
            }
        }
        if distinct_keys(s, g) {
            assert(distinct_keys(u, g)) by {
                assert forall|i: int, j: int| 0 <= i < u.len() && 0 <= j < u.len() && i != j implies g(u[i]) != g(u[j]) by {
                    assert(u[i] == s[i] && u[j] == s[j]);
                }
            }
            assert forall|k: int| 0 <= k < t.len() implies g(#[trigger] t[k]) != g(x) by {
                assert(u.contains(t[k]));
                let w = choose|w: int| 0 <= w < u.len() && u[w] == t[k];
                assert(s[w] == u[w]);
                assert(s[s.len() - 1] == x);
            }
            assert forall|i: int, j: int| 0 <= i < r.len() && 0 <= j < r.len() && i != j implies g(r[i]) != g(r[j]) by {
                let ti = if i < p { i } else { i - 1 };
                let tj = if j < p { j } else { j - 1 };
                if i != p && j != p {
                    assert(r[i] == t[ti] && r[j] == t[tj]);
                } else if i == p {
                    assert(r[j] == t[tj]);
                } else {
                    assert(r[i] == t[ti]);
                }
            }
        }
    }
}

/// An element that can be sorted by an integer key.
pub trait SortKey: DeepView + Sized {
    spec fn key_of(v: Self::V) -> int;

    /// Whether the key of `self` is greater than that of `other`.
    fn key_greater(&self, other: &Self) -> (r: bool)
        ensures
            r == (Self::key_of(self.deep_view()) > Self::key_of(other.deep_view())),
    ;
}

/// The key of a deep view, as a spec closure.
pub open spec fn key_fn<T: SortKey>() -> spec_fn(T::V) -> int {
    |v: T::V| T::key_of(v)
}

/// Sorts `v` by key, stably.
pub fn sort_by_key_exec<T: SortKey>(v: Vec<T>) -> (r: Vec<T>)
    ensures
        r.deep_view() == sort_by_key(v.deep_view(), key_fn::<T>()),
{
    let ghost s = v.deep_view();
    let ghost key = key_fn::<T>();
    let mut rest = v;
    let mut out: Vec<T> = Vec::new();
    let n = rest.len();
    let mut i: usize = 0;
    assert(out.deep_view() =~= sort_by_key(s.take(0), key));
    while i < n
        invariant
            n == s.len(),
            i <= n,
            rest.deep_view() == s.skip(i as int),
            out.deep_view() == sort_by_key(s.take(i as int), key),
            key == key_fn::<T>(),
        decreases n - i,
    {
        assert(rest.deep_view().len() == n - i);
        let x = crate::seqs::remove_at(&mut rest, 0);
        let ghost xv = x.deep_view();
        assert(xv == s[i as int]);
        assert(rest.deep_view() =~= s.skip(i as int + 1));
        let ghost t = out.deep_view();
        let mut j = out.len();
        assert(t.take(j as int) =~= t);
        while j > 0 && out[j - 1].key_greater(&x)
            invariant
                j <= out@.len(),
                out.deep_view() == t,
                insert_pos(t, xv, key) == insert_pos(t.take(j as int), xv, key),
                xv == x.deep_view(),
                key == key_fn::<T>(),
            decreases j,
        {
            proof {
                let tj = t.take(j as int);
                assert(tj.drop_last() =~= t.take(j as int - 1));
                assert(tj.last() == t[j as int - 1]);
            }
            j = j - 1;
        }
        proof {
            if j > 0 {
                let tj = t.take(j as int);
                assert(tj.last() == t[j as int - 1]);
                assert(insert_pos(tj, xv, key) == j);
            } else {
                assert(t.take(0).len() == 0);
            }
            let si = s.take(i as int + 1);
            assert(si.drop_last() =~= s.take(i as int));
            assert(si.last() == xv);
        }
        crate::seqs::insert_at(&mut out, j, x);
        i = i + 1;
    }
    assert(s.take(n as int) =~= s);
    out
}

} // verus!
