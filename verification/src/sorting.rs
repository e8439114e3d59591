//! Stable insertion sort, specified once for any "comes strictly before"
//! relation, with the facts every caller needs: the result is a permutation
//! of the input and is ordered.
use vstd::prelude::*;

verus! {

/// Inserts `x` into `s` after every element that `x` does not come before.
pub open spec fn insert_by<T>(s: Seq<T>, x: T, before: spec_fn(T, T) -> bool) -> Seq<T>
    decreases s.len(),
{
    if s.len() == 0 {
        seq![x]
    } else if before(x, s.last()) {
        insert_by(s.drop_last(), x, before).push(s.last())
    } else {
        s.push(x)
    }
}

/// Stable insertion sort: the elements of `s`, inserted one by one in order.
pub open spec fn isort_by<T>(s: Seq<T>, before: spec_fn(T, T) -> bool) -> Seq<T>
    decreases s.len(),
{
    if s.len() == 0 {
        Seq::empty()
    } else {
        insert_by(isort_by(s.drop_last(), before), s.last(), before)
    }
}

/// No element comes strictly before an element to its left.
pub open spec fn sorted_by<T>(s: Seq<T>, before: spec_fn(T, T) -> bool) -> bool {
    forall|i: int, j: int| 0 <= i < j < s.len() ==> !before(s[j], s[i])
}

/// `before` is a strict weak order: asymmetric, and "not before" is transitive.
pub open spec fn strict_weak_order<T>(before: spec_fn(T, T) -> bool) -> bool {
    &&& forall|a: T, b: T| #[trigger] before(a, b) ==> !before(b, a)
    &&& forall|a: T, b: T, c: T|
        #![trigger before(a, b), before(b, c)]
        !before(a, b) && !before(b, c) ==> !before(a, c)
}

/// Inserting at the position found by scanning from the end.
pub proof fn lemma_insert_at<T>(s: Seq<T>, x: T, before: spec_fn(T, T) -> bool, j: int)
    requires
        0 <= j <= s.len(),
        forall|k: int| j <= k < s.len() ==> before(x, #[trigger] s[k]),
        j == 0 || !before(x, s[j - 1]),
    ensures
        insert_by(s, x, before) == s.take(j).push(x) + s.skip(j),
    decreases s.len(),
{
    if s.len() == 0 {
        assert(s.take(j).push(x) + s.skip(j) =~= seq![x]);
    } else if j == s.len() {
        assert(!before(x, s.last()));
        assert(s.take(j).push(x) + s.skip(j) =~= s.push(x));
    } else {
        assert(before(x, s[s.len() - 1]));
        let t = s.drop_last();
        assert forall|k: int| j <= k < t.len() implies before(x, #[trigger] t[k]) by {
            assert(t[k] == s[k]);
        }
        if j > 0 {
            assert(t[j - 1] == s[j - 1]);
        }
        lemma_insert_at(t, x, before, j);
        assert(t.take(j).push(x) + t.skip(j) + seq![s.last()] =~= s.take(j).push(x) + s.skip(j));
    }
}

/// Insertion adds exactly one copy of `x`.
pub proof fn lemma_insert_multiset<T>(s: Seq<T>, x: T, before: spec_fn(T, T) -> bool)
    ensures
        insert_by(s, x, before).to_multiset() == s.to_multiset().insert(x),
        insert_by(s, x, before).len() == s.len() + 1,
    decreases s.len(),
{
    broadcast use vstd::seq_lib::group_to_multiset_ensures;

    if s.len() == 0 {
        assert(seq![x] =~= Seq::<T>::empty().push(x));
    } else if before(x, s.last()) {
        lemma_insert_multiset(s.drop_last(), x, before);
        assert(s.drop_last().push(s.last()) =~= s);
        assert(s.drop_last().push(s.last()).to_multiset() == s.drop_last().to_multiset().insert(
            s.last(),
        ));
    }
}

/// Sorting keeps the same elements, with the same multiplicities.
pub proof fn lemma_isort_multiset<T>(s: Seq<T>, before: spec_fn(T, T) -> bool)
    ensures
        isort_by(s, before).to_multiset() == s.to_multiset(),
        isort_by(s, before).len() == s.len(),
    decreases s.len(),
{
    broadcast use vstd::seq_lib::group_to_multiset_ensures;

    if s.len() > 0 {
        lemma_isort_multiset(s.drop_last(), before);
        lemma_insert_multiset(isort_by(s.drop_last(), before), s.last(), before);
        assert(s.drop_last().push(s.last()) =~= s);
    }
}

/// Insertion into an ordered sequence keeps it ordered.
pub proof fn lemma_insert_sorted<T>(s: Seq<T>, x: T, before: spec_fn(T, T) -> bool)
    requires
        strict_weak_order(before),
        sorted_by(s, before),
    ensures
        sorted_by(insert_by(s, x, before), before),
        insert_by(s, x, before).len() == s.len() + 1,
    decreases s.len(),
{
    if s.len() == 0 {
    } else if before(x, s.last()) {
        let t = s.drop_last();
        lemma_insert_sorted(t, x, before);
        let u = insert_by(t, x, before);
        let r = u.push(s.last());
        lemma_insert_multiset(t, x, before);
        t.to_multiset_ensures();
        u.to_multiset_ensures();
        assert forall|i: int, j: int| 0 <= i < j < r.len() implies !before(r[j], r[i]) by {
            if j == r.len() - 1 {
                assert(u.contains(u[i]));
                assert(u.to_multiset().count(u[i]) > 0);
                if u[i] != x {
                    assert(t.to_multiset().count(u[i]) > 0);
                    assert(t.contains(u[i]));
                    let k = choose|k: int| 0 <= k < t.len() && t[k] == u[i];
                    assert(t[k] == s[k]);
                    assert(!before(s[s.len() - 1], s[k]));
                }
            } else {
                assert(r[j] == u[j] && r[i] == u[i]);
            }
        }
    } else {
        let r = s.push(x);
        assert forall|i: int, j: int| 0 <= i < j < r.len() implies !before(r[j], r[i]) by {
            if j == r.len() - 1 && i < s.len() - 1 {
                assert(!before(s[s.len() - 1], s[i]));
            }
        }
    }
}

/// Sorting yields an ordered sequence.
pub proof fn lemma_isort_sorted<T>(s: Seq<T>, before: spec_fn(T, T) -> bool)
    requires
        strict_weak_order(before),
    ensures
        sorted_by(isort_by(s, before), before),
    decreases s.len(),
{
    if s.len() > 0 {
        lemma_isort_sorted(s.drop_last(), before);
        lemma_insert_sorted(isort_by(s.drop_last(), before), s.last(), before);
    }
}

/// Inserts `x` at position `j` of `out`, where `j` is the place that a scan
/// from the end finds.
pub(crate) fn insert_at<T>(out: &mut Vec<T>, x: T, j: usize, Ghost(before): Ghost<spec_fn(T, T) -> bool>)
    requires
        j <= old(out)@.len(),
        forall|k: int| j <= k < old(out)@.len() ==> before(x, #[trigger] old(out)@[k]),
        j == 0 || !before(x, old(out)@[j - 1]),
    ensures
        final(out)@ == insert_by(old(out)@, x, before),
{
    proof {
        lemma_insert_at(old(out)@, x, before, j as int);
    }
    let ghost s = out@;
    out.insert(j, x);
    assert(out@ =~= s.take(j as int).push(x) + s.skip(j as int));
}

} // verus!
