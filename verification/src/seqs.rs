//! Vector operations stated over the deep views of their elements.

use vstd::prelude::*;

verus! {

/// A copy of `v` whose elements are clones of those of `v`.
pub fn clone_vec<T: Clone + DeepView>(v: &Vec<T>) -> (r: Vec<T>)
    requires
        forall|a: T, b: T| #[trigger] cloned::<T>(a, b) ==> a.deep_view() == b.deep_view(),
    ensures
        r.deep_view() == v.deep_view(),
{
    let r = v.clone();
    assert(r.deep_view() =~= v.deep_view()) by {
        assert forall|i: int| 0 <= i < v@.len() implies r@[i].deep_view() == v@[i].deep_view() by {
            assert(cloned::<T>(v@[i], r@[i]));
        }
    }
    r
}

/// Inserts `x` at `i`.
pub fn insert_at<T: DeepView>(v: &mut Vec<T>, i: usize, x: T)
    requires
        i <= old(v)@.len(),
    ensures
        final(v).deep_view() == old(v).deep_view().insert(i as int, x.deep_view()),
        final(v)@.len() == old(v)@.len() + 1,
{
    let ghost xv = x.deep_view();
    v.insert(i, x);
    assert(v.deep_view() =~= old(v).deep_view().insert(i as int, xv));
}

/// Removes and returns the element at `i`.
pub fn remove_at<T: DeepView>(v: &mut Vec<T>, i: usize) -> (r: T)
    requires
        i < old(v)@.len(),
    ensures
        r.deep_view() == old(v).deep_view()[i as int],
        final(v).deep_view() == old(v).deep_view().remove(i as int),
        final(v)@.len() == old(v)@.len() - 1,
{
    let r = v.remove(i);
    assert(v.deep_view() =~= old(v).deep_view().remove(i as int));
    r
}

/// The sequence `s` with its elements at `i` and `i + 1` exchanged.
pub open spec fn swap_next<A>(s: Seq<A>, i: int) -> Seq<A> {
    s.update(i, s[i + 1]).update(i + 1, s[i])
}

/// Exchanges the elements at `i` and `i + 1`.
pub fn swap_with_next<T: DeepView>(v: &mut Vec<T>, i: usize)
    requires
        i + 1 < old(v)@.len(),
    ensures
        final(v).deep_view() == swap_next(old(v).deep_view(), i as int),
        final(v)@.len() == old(v)@.len(),
{
    let n = v.len();
    assert(i + 1 < n);
    let x = remove_at(v, i);
    insert_at(v, i + 1, x);
    assert(v.deep_view() =~= swap_next(old(v).deep_view(), i as int));
}

} // verus!
