//! Stable sorting by a total preorder, as `slice::sort_by` performs it.
//!
//! `stable_sort` names the result; `lemma_stable_sort_is_sorted_permutation`
//! shows that it is ordered, a permutation of its input, and keeps
//! elements that compare equal in their input order.

use vstd::prelude::*;

verus! {

/// `le` is total and transitive.
pub open spec fn total_preorder<T>(le: spec_fn(T, T) -> bool) -> bool {
    &&& forall|a: T, b: T| #[trigger] le(a, b) || le(b, a)
    &&& forall|a: T, b: T, c: T| #[trigger] le(a, b) && #[trigger] le(b, c) ==> le(a, c)
}

/// Every element is `le` every later element.
pub open spec fn sorted_by<T>(s: Seq<T>, le: spec_fn(T, T) -> bool) -> bool {
    forall|i: int, j: int| 0 <= i < j < s.len() ==> #[trigger] le(s[i], s[j])
}

/// `out` is `inp` rearranged by `perm` (`out[i] == inp[perm[i]]`), and two
/// elements whose order `le` allows either way keep their input order.
pub open spec fn stable_permutation_of<T>(
    out: Seq<T>,
    inp: Seq<T>,
    le: spec_fn(T, T) -> bool,
    perm: Seq<int>,
) -> bool {
    &&& out.len() == inp.len()
    &&& perm.len() == inp.len()
    &&& forall|i: int| 0 <= i < perm.len() ==> 0 <= #[trigger] perm[i] < inp.len()
    &&& forall|i: int| 0 <= i < perm.len() ==> #[trigger] out[i] == inp[perm[i]]
    &&& forall|i: int, j: int| 0 <= i < j < perm.len() ==> #[trigger] perm[i] != #[trigger] perm[j]
    &&& forall|i: int, j: int|
        0 <= i < j < perm.len() && #[trigger] le(out[j], out[i]) ==> perm[i] < perm[j]
}

/// Where `x` goes in `t`: before the first element that is not `le` `x`.
pub open spec fn insert_pos<T>(t: Seq<T>, x: T, le: spec_fn(T, T) -> bool) -> int
    decreases t.len(),
{
    if t.len() == 0 {
        0
    } else if !le(t[0], x) {
        0
    } else {
        1 + insert_pos(t.drop_first(), x, le)
    }
}

/// `t` with `x` placed after every element that is `le` it.
pub open spec fn insert_sorted<T>(t: Seq<T>, x: T, le: spec_fn(T, T) -> bool) -> Seq<T> {
    let p = insert_pos(t, x, le);
    t.take(p) + seq![x] + t.skip(p)
}

/// The stable sort of `s` by `le`.
pub open spec fn stable_sort<T>(s: Seq<T>, le: spec_fn(T, T) -> bool) -> Seq<T>
    decreases s.len(),
{
    if s.len() == 0 {
        s
    } else {
        insert_sorted(stable_sort(s.drop_last(), le), s.last(), le)
    }
}

/// `insert_pos` is the first index whose element is not `le` `x`.
pub proof fn lemma_insert_pos<T>(t: Seq<T>, x: T, le: spec_fn(T, T) -> bool)
    ensures
        0 <= insert_pos(t, x, le) <= t.len(),
        forall|q: int| 0 <= q < insert_pos(t, x, le) ==> #[trigger] le(t[q], x),
        insert_pos(t, x, le) < t.len() ==> !le(t[insert_pos(t, x, le)], x),
    decreases t.len(),
{
    if t.len() > 0 && le(t[0], x) {
        lemma_insert_pos(t.drop_first(), x, le);
        let p = insert_pos(t, x, le);
        assert forall|q: int| 0 <= q < p implies #[trigger] le(t[q], x) by {
            if q > 0 {
                assert(t[q] == t.drop_first()[q - 1]);
            }
        }
    }
}

/// The index that a scan finds is `insert_pos`.
pub proof fn lemma_insert_pos_unique<T>(t: Seq<T>, x: T, le: spec_fn(T, T) -> bool, p: int)
    requires
        0 <= p <= t.len(),
        forall|q: int| 0 <= q < p ==> #[trigger] le(t[q], x),
        p < t.len() ==> !le(t[p], x),
    ensures
        insert_pos(t, x, le) == p,
{
    lemma_insert_pos(t, x, le);
    let r = insert_pos(t, x, le);
    if r < p {
        assert(le(t[r], x));
    } else if p < r {
        assert(le(t[p], x));
    }
}

/// In a sorted sequence, nothing at or after `insert_pos` is `le` `x`.
proof fn lemma_after_insert_pos<T>(t: Seq<T>, x: T, le: spec_fn(T, T) -> bool)
    requires
        total_preorder(le),
        sorted_by(t, le),
    ensures
        forall|q: int| insert_pos(t, x, le) <= q < t.len() ==> !#[trigger] le(t[q], x),
{
    lemma_insert_pos(t, x, le);
    let p = insert_pos(t, x, le);
    assert forall|q: int| p <= q < t.len() implies !#[trigger] le(t[q], x) by {
        if q > p && le(t[q], x) {
            assert(le(t[p], t[q]));
            assert(le(t[p], x));
        }
    }
}

proof fn lemma_insert_sorted_sorted<T>(t: Seq<T>, x: T, le: spec_fn(T, T) -> bool)
    requires
        total_preorder(le),
        sorted_by(t, le),
    ensures
        sorted_by(insert_sorted(t, x, le), le),
{
    lemma_insert_pos(t, x, le);
    lemma_after_insert_pos(t, x, le);
    let p = insert_pos(t, x, le);
    let r = insert_sorted(t, x, le);
    assert(r.len() == t.len() + 1);
    assert forall|i: int, j: int| 0 <= i < j < r.len() implies #[trigger] le(r[i], r[j]) by {
        if j < p {
            assert(r[i] == t[i] && r[j] == t[j]);
        } else if j == p {
            assert(r[i] == t[i] && r[j] == x);
        } else if i < p {
            assert(r[i] == t[i] && r[j] == t[j - 1]);
        } else if i == p {
            assert(r[i] == x && r[j] == t[j - 1]);
            assert(!le(t[j - 1], x));
            assert(le(t[j - 1], x) || le(x, t[j - 1]));
        } else {
            assert(r[i] == t[i - 1] && r[j] == t[j - 1]);
        }
    }
}

proof fn lemma_stable_sort_sorted<T>(s: Seq<T>, le: spec_fn(T, T) -> bool)
    requires
        total_preorder(le),
    ensures
        sorted_by(stable_sort(s, le), le),
    decreases s.len(),
{
    if s.len() > 0 {
        lemma_stable_sort_sorted(s.drop_last(), le);
        lemma_insert_sorted_sorted(stable_sort(s.drop_last(), le), s.last(), le);
    }
}

proof fn lemma_stable_sort_perm<T>(s: Seq<T>, le: spec_fn(T, T) -> bool) -> (perm: Seq<int>)
    requires
        total_preorder(le),
    ensures
        stable_permutation_of(stable_sort(s, le), s, le, perm),
    decreases s.len(),
{
    if s.len() == 0 {
        Seq::<int>::empty()
    } else {
        let init = s.drop_last();
        let x = s.last();
        let t = stable_sort(init, le);
        let pt = lemma_stable_sort_perm(init, le);
        lemma_stable_sort_sorted(init, le);
        lemma_insert_pos(t, x, le);
        lemma_after_insert_pos(t, x, le);
        let p = insert_pos(t, x, le);
        let n = s.len() - 1;
        let perm = pt.take(p) + seq![n] + pt.skip(p);
        let out = stable_sort(s, le);
        assert(out == t.take(p) + seq![x] + t.skip(p));
        assert(out.len() == s.len());
        assert forall|i: int| 0 <= i < perm.len() implies 0 <= #[trigger] perm[i] < s.len() by {
            if i < p {
                assert(perm[i] == pt[i]);
            } else if i > p {
                assert(perm[i] == pt[i - 1]);
            }
        }
        assert forall|i: int| 0 <= i < perm.len() implies #[trigger] out[i] == s[perm[i]] by {
            if i < p {
                assert(perm[i] == pt[i] && out[i] == t[i] && t[i] == init[pt[i]]);
            } else if i > p {
                assert(perm[i] == pt[i - 1] && out[i] == t[i - 1] && t[i - 1] == init[pt[i - 1]]);
            }
        }
        assert forall|i: int, j: int| 0 <= i < j < perm.len() implies #[trigger] perm[i]
            != #[trigger] perm[j] by {
            if j < p {
                assert(perm[i] == pt[i] && perm[j] == pt[j]);
            } else if j == p {
                assert(perm[i] == pt[i]);
            } else if i < p {
                assert(perm[i] == pt[i] && perm[j] == pt[j - 1]);
            } else if i == p {
                assert(perm[j] == pt[j - 1]);
            } else {
                assert(perm[i] == pt[i - 1] && perm[j] == pt[j - 1]);
            }
        }
        assert forall|i: int, j: int|
            0 <= i < j < perm.len() && #[trigger] le(out[j], out[i]) implies perm[i] < perm[j] by {
            if j < p {
                assert(perm[i] == pt[i] && perm[j] == pt[j] && out[i] == t[i] && out[j] == t[j]);
            } else if j == p {
                assert(perm[i] == pt[i]);
            } else if i < p {
                assert(perm[i] == pt[i] && perm[j] == pt[j - 1] && out[i] == t[i] && out[j] == t[j
                    - 1]);
            } else if i == p {
                assert(out[j] == t[j - 1] && out[i] == x);
                assert(!le(t[j - 1], x));
            } else {
                assert(perm[i] == pt[i - 1] && perm[j] == pt[j - 1] && out[i] == t[i - 1] && out[j]
                    == t[j - 1]);
            }
        }
        perm
    }
}

/// Law: the stable sort of `s` is ordered by `le`, and it is `s`
/// rearranged so that elements that `le` orders either way keep their
/// order in `s`.
pub proof fn lemma_stable_sort_is_sorted_permutation<T>(s: Seq<T>, le: spec_fn(T, T) -> bool)
    requires
        total_preorder(le),
    ensures
        sorted_by(stable_sort(s, le), le),
        exists|perm: Seq<int>| stable_permutation_of(stable_sort(s, le), s, le, perm),
{
    lemma_stable_sort_sorted(s, le);
    let perm = lemma_stable_sort_perm(s, le);
}

/// Law: sorting a sequence that is already in order leaves it unchanged.
pub proof fn lemma_stable_sort_of_sorted<T>(s: Seq<T>, le: spec_fn(T, T) -> bool)
    requires
        sorted_by(s, le),
    ensures
        stable_sort(s, le) == s,
    decreases s.len(),
{
    if s.len() > 0 {
        let init = s.drop_last();
        assert(sorted_by(init, le)) by {
            assert forall|i: int, j: int| 0 <= i < j < init.len() implies #[trigger] le(
                init[i],
                init[j],
            ) by {
                assert(init[i] == s[i] && init[j] == s[j]);
            }
        }
        lemma_stable_sort_of_sorted(init, le);
        assert forall|q: int| 0 <= q < init.len() implies #[trigger] le(init[q], s.last()) by {
            assert(le(s[q], s[s.len() - 1]));
        }
        lemma_insert_pos_unique(init, s.last(), le, init.len() as int);
        assert(init.take(init.len() as int) + seq![s.last()] + init.skip(init.len() as int) =~= s);
    }
}

} // verus!
