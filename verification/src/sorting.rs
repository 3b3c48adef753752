//! Stable insertion sorting, as a reusable specification: a new element
//! goes after every element it may stay behind, so equal keys keep
//! their first-come order.

use vstd::prelude::*;

verus! {

/// Inserts `x` after every leading element `e` with `stays(e, x)`.
pub open spec fn insert_stable<T>(stays: spec_fn(T, T) -> bool, x: T, s: Seq<T>) -> Seq<T>
    decreases s.len(),
{
    if s.len() == 0 {
        seq![x]
    } else if stays(s[0], x) {
        seq![s[0]] + insert_stable(stays, x, s.drop_first())
    } else {
        seq![x] + s
    }
}

/// Stable insertion sort: elements are inserted left to right.
pub open spec fn sort_stable<T>(stays: spec_fn(T, T) -> bool, s: Seq<T>) -> Seq<T>
    decreases s.len(),
{
    if s.len() == 0 {
        Seq::empty()
    } else {
        insert_stable(stays, s.last(), sort_stable(stays, s.drop_last()))
    }
}

/// Where [`insert_stable`] puts the new element: at the first position
/// whose occupant it may not stay behind.
pub proof fn lemma_insert_stable_at<T>(stays: spec_fn(T, T) -> bool, x: T, s: Seq<T>, p: int)
    requires
        0 <= p <= s.len(),
        forall|j: int| 0 <= j < p ==> stays(#[trigger] s[j], x),
        p < s.len() ==> !stays(s[p], x),
    ensures
        insert_stable(stays, x, s) == s.take(p) + seq![x] + s.skip(p),
    decreases p,
{
    if p == 0 {
        if s.len() == 0 {
            assert(s.take(0) + seq![x] + s.skip(0) =~= seq![x]);
        } else {
            assert(s.take(0) + seq![x] + s.skip(0) =~= seq![x] + s);
        }
    } else {
        lemma_insert_stable_at(stays, x, s.drop_first(), p - 1);
        assert(s.drop_first().take(p - 1) =~= s.take(p).drop_first());
        assert(s.drop_first().skip(p - 1) =~= s.skip(p));
        assert(seq![s[0]] + (s.drop_first().take(p - 1) + seq![x] + s.drop_first().skip(p - 1))
            =~= s.take(p) + seq![x] + s.skip(p));
    }
}

pub proof fn lemma_insert_stable_len<T>(stays: spec_fn(T, T) -> bool, x: T, s: Seq<T>)
    ensures
        insert_stable(stays, x, s).len() == s.len() + 1,
    decreases s.len(),
{
    if s.len() > 0 && stays(s[0], x) {
        lemma_insert_stable_len(stays, x, s.drop_first());
    }
}

pub proof fn lemma_sort_stable_len<T>(stays: spec_fn(T, T) -> bool, s: Seq<T>)
    ensures
        sort_stable(stays, s).len() == s.len(),
    decreases s.len(),
{
    if s.len() > 0 {
        lemma_sort_stable_len(stays, s.drop_last());
        lemma_insert_stable_len(stays, s.last(), sort_stable(stays, s.drop_last()));
    }
}

pub proof fn lemma_insert_stable_contains<T>(stays: spec_fn(T, T) -> bool, x: T, s: Seq<T>, k: int)
    requires
        0 <= k < insert_stable(stays, x, s).len(),
    ensures
        insert_stable(stays, x, s)[k] == x || s.contains(insert_stable(stays, x, s)[k]),
    decreases s.len(),
{
    let r = insert_stable(stays, x, s);
    if s.len() == 0 {
    } else if stays(s[0], x) {
        if k == 0 {
            assert(s.contains(s[0]));
        } else {
            lemma_insert_stable_contains(stays, x, s.drop_first(), k - 1);
            let e = insert_stable(stays, x, s.drop_first())[k - 1];
            assert(r[k] == e);
            if e != x {
                let j = choose|j: int| 0 <= j < s.drop_first().len() && s.drop_first()[j] == e;
                assert(s[j + 1] == e);
                assert(s.contains(e));
            }
        }
    } else {
        if k > 0 {
            assert(r[k] == s[k - 1]);
            assert(s.contains(s[k - 1]));
        }
    }
}

pub proof fn lemma_sort_stable_contains<T>(stays: spec_fn(T, T) -> bool, s: Seq<T>, k: int)
    requires
        0 <= k < sort_stable(stays, s).len(),
    ensures
        s.contains(sort_stable(stays, s)[k]),
    decreases s.len(),
{
    let r = sort_stable(stays, s);
    let front = sort_stable(stays, s.drop_last());
    lemma_insert_stable_contains(stays, s.last(), front, k);
    let e = r[k];
    if e == s.last() {
        assert(s[s.len() - 1] == e);
        assert(s.contains(e));
    } else {
        let j = choose|j: int| 0 <= j < front.len() && front[j] == e;
        lemma_sort_stable_contains(stays, s.drop_last(), j);
        let m = choose|m: int| 0 <= m < s.drop_last().len() && s.drop_last()[m] == e;
        assert(s[m] == e);
        assert(s.contains(e));
    }
}

/// [`sort_stable`] of one more element: the new last element inserted
/// into the sorted front.
pub proof fn lemma_sort_stable_take_succ<T>(stays: spec_fn(T, T) -> bool, s: Seq<T>, i: int)
    requires
        0 <= i < s.len(),
    ensures
        sort_stable(stays, s.take(i + 1)) == insert_stable(
            stays,
            s[i],
            sort_stable(stays, s.take(i)),
        ),
{
    assert(s.take(i + 1).drop_last() =~= s.take(i));
    assert(s.take(i + 1).last() == s[i]);
}

} // verus!
