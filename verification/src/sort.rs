//! Stable ordering: the insertion order that `slice::sort_by` produces.
use vstd::prelude::*;

verus! {

/// `s` with `x` placed right after the last element `e` from the end with `le(e, x)`
/// (at the front when there is none). For a sorted `s` this is after every element
/// ordered no later than `x`, which keeps equal elements in their arrival order.
pub open spec fn insert_by<T>(s: Seq<T>, x: T, le: spec_fn(T, T) -> bool) -> Seq<T>
    decreases s.len(),
{
    if s.len() == 0 {
        seq![x]
    } else if le(s.last(), x) {
        s.push(x)
    } else {
        insert_by(s.drop_last(), x, le).push(s.last())
    }
}

/// `s` sorted by `le`, stably: what inserting its elements one by one gives.
pub open spec fn sorted_by<T>(s: Seq<T>, le: spec_fn(T, T) -> bool) -> Seq<T>
    decreases s.len(),
{
    if s.len() == 0 {
        seq![]
    } else {
        insert_by(sorted_by(s.drop_last(), le), s.last(), le)
    }
}

/// Every element is ordered no later than every element after it.
pub open spec fn is_sorted_by<T>(s: Seq<T>, le: spec_fn(T, T) -> bool) -> bool {
    forall|i: int, j: int| 0 <= i < j < s.len() ==> #[trigger] le(s[i], s[j])
}

/// `le` is a total preorder.
pub open spec fn total_preorder<T>(le: spec_fn(T, T) -> bool) -> bool {
    &&& forall|a: T, b: T| #[trigger] le(a, b) || le(b, a)
    &&& forall|a: T, b: T, c: T| #[trigger] le(a, b) && #[trigger] le(b, c) ==> le(a, c)
}

/// Scanning back over elements not ordered before `x` does not change where `x` goes.
pub proof fn lemma_insert_scan<T>(s: Seq<T>, x: T, le: spec_fn(T, T) -> bool, j: int)
    requires
        0 <= j <= s.len(),
        forall|k: int| j <= k < s.len() ==> !le(#[trigger] s[k], x),
    ensures
        insert_by(s, x, le) == insert_by(s.take(j), x, le) + s.skip(j),
    decreases s.len() - j,
{
    if j < s.len() {
        let d = s.drop_last();
        assert forall|k: int| j <= k < d.len() implies !le(#[trigger] d[k], x) by {
            assert(d[k] == s[k]);
        }
        lemma_insert_scan(d, x, le, j);
        assert(d.take(j) == s.take(j));
        assert(d.skip(j).push(s.last()) == s.skip(j));
    } else {
        assert(s.take(j) == s);
        assert(s.skip(j).len() == 0);
        assert(insert_by(s, x, le) + s.skip(j) == insert_by(s, x, le));
    }
}

/// Where the scan stops, `x` goes there.
pub proof fn lemma_insert_at<T>(s: Seq<T>, x: T, le: spec_fn(T, T) -> bool, j: int)
    requires
        0 <= j <= s.len(),
        forall|k: int| j <= k < s.len() ==> !le(#[trigger] s[k], x),
        j == 0 || le(s[j - 1], x),
    ensures
        insert_by(s, x, le) == s.insert(j, x),
{
    lemma_insert_scan(s, x, le, j);
    let t = s.take(j);
    if j > 0 {
        assert(t.last() == s[j - 1]);
    }
    assert(insert_by(t, x, le) == t.push(x));
    assert(s.insert(j, x) == t.push(x) + s.skip(j));
}

/// Inserting keeps the same elements.
pub proof fn lemma_insert_perm<T>(s: Seq<T>, x: T, le: spec_fn(T, T) -> bool)
    ensures
        insert_by(s, x, le).to_multiset() == s.to_multiset().insert(x),
    decreases s.len(),
{
    broadcast use vstd::seq_lib::group_to_multiset_ensures;
    if s.len() > 0 && !le(s.last(), x) {
        lemma_insert_perm(s.drop_last(), x, le);
        assert(s.drop_last().push(s.last()) == s);
    }
}

/// Sorting keeps the same elements.
pub proof fn lemma_sorted_by_perm<T>(s: Seq<T>, le: spec_fn(T, T) -> bool)
    ensures
        sorted_by(s, le).to_multiset() == s.to_multiset(),
    decreases s.len(),
{
    broadcast use vstd::seq_lib::group_to_multiset_ensures;
    if s.len() > 0 {
        lemma_sorted_by_perm(s.drop_last(), le);
        lemma_insert_perm(sorted_by(s.drop_last(), le), s.last(), le);
        assert(s.drop_last().push(s.last()) == s);
    }
}

/// Inserting into a sorted sequence keeps it sorted.
pub proof fn lemma_insert_sorted<T>(s: Seq<T>, x: T, le: spec_fn(T, T) -> bool)
    requires
        total_preorder(le),
        is_sorted_by(s, le),
    ensures
        is_sorted_by(insert_by(s, x, le), le),
        insert_by(s, x, le).len() == s.len() + 1,
    decreases s.len(),
{
    if s.len() == 0 {
    } else if le(s.last(), x) {
        let r = s.push(x);
        assert forall|i: int, j: int| 0 <= i < j < r.len() implies #[trigger] le(r[i], r[j]) by {
            if j == s.len() {
                if i < s.len() - 1 {
                    assert(le(s[i], s[s.len() - 1]));
                }
            } else {
                assert(le(s[i], s[j]));
            }
        }
    } else {
        let d = s.drop_last();
        assert(is_sorted_by(d, le)) by {
            assert forall|i: int, j: int| 0 <= i < j < d.len() implies #[trigger] le(d[i], d[j]) by {
                assert(le(s[i], s[j]));
            }
        }
        lemma_insert_sorted(d, x, le);
        lemma_insert_perm(d, x, le);
        let t = insert_by(d, x, le);
        let r = t.push(s.last());
        assert(le(x, s.last()));
        assert forall|i: int, j: int| 0 <= i < j < r.len() implies #[trigger] le(r[i], r[j]) by {
            if j == t.len() {
                // every element of t is x or an element of d, all ordered no later than s.last()
                let e = t[i];
                assert(t.to_multiset().count(e) > 0) by {
                    broadcast use vstd::seq_lib::group_to_multiset_ensures;
                    assert(t.contains(e));
                }
                assert(d.to_multiset().insert(x).count(e) > 0);
                if e != x {
                    broadcast use vstd::seq_lib::group_to_multiset_ensures;
                    assert(d.contains(e));
                    let k = choose|k: int| 0 <= k < d.len() && d[k] == e;
                    assert(le(s[k], s[s.len() - 1]));
                }
            } else {
                assert(le(t[i], t[j]));
            }
        }
    }
}

/// Sorting gives a sorted sequence of the same length.
pub proof fn lemma_sorted_by_sorted<T>(s: Seq<T>, le: spec_fn(T, T) -> bool)
    requires
        total_preorder(le),
    ensures
        is_sorted_by(sorted_by(s, le), le),
        sorted_by(s, le).len() == s.len(),
    decreases s.len(),
{
    if s.len() > 0 {
        lemma_sorted_by_sorted(s.drop_last(), le);
        lemma_insert_sorted(sorted_by(s.drop_last(), le), s.last(), le);
    }
}

} // verus!
