//! Why sifting works: it keeps the elements, and it restores the heap
//! property when a single node is out of place.

use vstd::prelude::*;
use crate::order::{ge, gt, total_order};
use crate::model::{
    is_heap, largest, left, parent, popped, pushed, right, sift_down, sift_up, swapped, valid_at,
};

verus! {

/// Heap order holds everywhere but possibly between the node at `k` and its
/// parent, and the parent of `k` is no less than the children of `k`.
pub open spec fn heap_but_up<T: PartialOrd>(s: Seq<T>, k: int) -> bool {
    &&& forall|i: int| 0 < i < s.len() && i != k ==> ge(s[parent(i)], #[trigger] s[i])
    &&& forall|i: int|
        0 < i < s.len() && 0 < k && parent(i) == k ==> ge(s[parent(k)], #[trigger] s[i])
}

/// Heap order holds everywhere but possibly between the node at `k` and its
/// children, and the parent of `k` is no less than the children of `k`.
pub open spec fn heap_but_down<T: PartialOrd>(s: Seq<T>, k: int) -> bool {
    &&& forall|i: int| 0 < i < s.len() && parent(i) != k ==> ge(s[parent(i)], #[trigger] s[i])
    &&& forall|i: int|
        0 < i < s.len() && 0 < k && parent(i) == k ==> ge(s[parent(k)], #[trigger] s[i])
}

/// Exchanging two elements leaves the multiset of elements as it was.
pub proof fn lemma_swapped_multiset<T>(s: Seq<T>, i: int, j: int)
    requires
        0 <= i < s.len(),
        0 <= j < s.len(),
    ensures
        swapped(s, i, j).to_multiset() == s.to_multiset(),
        swapped(s, i, j).len() == s.len(),
{
    broadcast use vstd::multiset::group_multiset_axioms;

    let mid = s.update(i, s[j]);
    vstd::seq_lib::to_multiset_update(s, i, s[j]);
    vstd::seq_lib::to_multiset_update(mid, j, s[i]);
    vstd::seq_lib::to_multiset_contains(s, s[i]);
    vstd::seq_lib::to_multiset_contains(s, s[j]);
    assert(s.contains(s[i]));
    assert(s.contains(s[j]));
    assert(mid[j] == s[j]);
    assert(swapped(s, i, j).to_multiset() =~= s.to_multiset());
}

/// Sifting up keeps the length and the multiset of elements.
pub proof fn lemma_sift_up_keeps<T: PartialOrd>(s: Seq<T>, i: int)
    ensures
        sift_up(s, i).len() == s.len(),
        sift_up(s, i).to_multiset() == s.to_multiset(),
    decreases i,
{
    if 0 < i < s.len() && !valid_at(s, i) {
        lemma_swapped_multiset(s, i, parent(i));
        lemma_sift_up_keeps(swapped(s, i, parent(i)), parent(i));
    }
}

/// Sifting down keeps the length and the multiset of elements.
pub proof fn lemma_sift_down_keeps<T: PartialOrd>(s: Seq<T>, i: int)
    ensures
        sift_down(s, i).len() == s.len(),
        sift_down(s, i).to_multiset() == s.to_multiset(),
    decreases s.len() - i,
{
    if 0 <= i < s.len() && largest(s, i) != i {
        lemma_swapped_multiset(s, i, largest(s, i));
        lemma_sift_down_keeps(swapped(s, i, largest(s, i)), largest(s, i));
    }
}

/// Under a total order, `a > b` gives `a >= b`, and `>=` is reflexive.
pub proof fn lemma_order_basics<T: PartialOrd>()
    requires
        total_order::<T>(),
    ensures
        forall|a: T, b: T| #[trigger] gt(a, b) ==> ge(a, b),
        forall|a: T| #[trigger] ge(a, a),
{
    assert forall|a: T, b: T| #[trigger] gt(a, b) implies ge(a, b) by {
        assert(ge(a, b) || ge(b, a));
    }
    assert forall|a: T| #[trigger] ge(a, a) by {
        assert(ge(a, a) || ge(a, a));
    }
}

/// Sifting up from the one node that may exceed its parent restores the
/// heap property.
pub proof fn lemma_sift_up_heap<T: PartialOrd>(s: Seq<T>, k: int)
    requires
        total_order::<T>(),
        0 <= k < s.len(),
        heap_but_up(s, k),
    ensures
        is_heap(sift_up(s, k)),
    decreases k,
{
    if 0 < k && !valid_at(s, k) {
        let p = parent(k);
        let t = swapped(s, k, p);
        assert(ge(s[k], s[p])) by {
            assert(ge(s[p], s[k]) || ge(s[k], s[p]));
        }
        assert forall|i: int| 0 < i < t.len() && i != p implies ge(
            t[parent(i)],
            #[trigger] t[i],
        ) by {
            if i == k {
            } else if parent(i) == p {
                assert(ge(s[p], s[i]));
                assert(ge(s[k], s[p]) && ge(s[p], s[i]) ==> ge(s[k], s[i]));
            } else if parent(i) == k {
                assert(ge(s[p], s[i]));
            } else {
                assert(ge(s[parent(i)], s[i]));
            }
        }
        assert forall|i: int| 0 < i < t.len() && 0 < p && parent(i) == p implies ge(
            t[parent(p)],
            #[trigger] t[i],
        ) by {
            let g = parent(p);
            assert(ge(s[g], s[p]));
            if i != k {
                assert(ge(s[p], s[i]));
                assert(ge(s[g], s[p]) && ge(s[p], s[i]) ==> ge(s[g], s[i]));
            }
        }
        lemma_sift_up_heap(t, p);
    } else {
        assert forall|i: int| 0 < i < s.len() implies ge(s[parent(i)], #[trigger] s[i]) by {}
    }
}

/// Sifting down from the one node that a child may exceed restores the heap
/// property.
pub proof fn lemma_sift_down_heap<T: PartialOrd>(s: Seq<T>, k: int)
    requires
        total_order::<T>(),
        0 <= k,
        heap_but_down(s, k),
    ensures
        is_heap(sift_down(s, k)),
    decreases s.len() - k,
{
    lemma_order_basics::<T>();
    if k < s.len() && largest(s, k) != k {
        let m = largest(s, k);
        let t = swapped(s, k, m);
        let l = left(k);
        let r = right(k);
        assert(ge(s[m], s[k]) && (l < s.len() ==> ge(s[m], s[l])) && (r < s.len() ==> ge(
            s[m],
            s[r],
        ))) by {
            if m == l {
                if r < s.len() {
                    assert(gt(s[r], s[l]) <==> !ge(s[l], s[r]));
                }
            } else if gt(s[l], s[k]) {
                assert(ge(s[r], s[l]) && ge(s[l], s[k]) ==> ge(s[r], s[k]));
            } else {
                assert(gt(s[l], s[k]) <==> !ge(s[k], s[l]));
                assert(ge(s[r], s[k]) && ge(s[k], s[l]) ==> ge(s[r], s[l]));
            }
        }
        assert forall|i: int| 0 < i < t.len() && parent(i) != m implies ge(
            t[parent(i)],
            #[trigger] t[i],
        ) by {
            if i == m {
            } else if parent(i) == k {
                assert(i == l || i == r);
            } else if i == k {
                assert(ge(s[parent(k)], s[m]));
            } else {
                assert(ge(s[parent(i)], s[i]));
            }
        }
        assert forall|i: int| 0 < i < t.len() && 0 < m && parent(i) == m implies ge(
            t[parent(m)],
            #[trigger] t[i],
        ) by {
            assert(ge(s[m], s[i]));
        }
        lemma_sift_down_heap(t, m);
    } else {
        assert forall|i: int| 0 < i < s.len() implies ge(s[parent(i)], #[trigger] s[i]) by {
            if parent(i) == k {
                let l = left(k);
                let r = right(k);
                assert(i == l || i == r);
                assert(gt(s[l], s[k]) <==> !ge(s[k], s[l]));
                if r < s.len() {
                    assert(gt(s[r], s[k]) <==> !ge(s[k], s[r]));
                }
            }
        }
    }
}

/// In a heap the root is no less than the element at `i`.
pub proof fn lemma_root_covers<T: PartialOrd>(s: Seq<T>, i: int)
    requires
        total_order::<T>(),
        is_heap(s),
        0 <= i < s.len(),
    ensures
        ge(s[0], s[i]),
    decreases i,
{
    lemma_order_basics::<T>();
    if i > 0 {
        lemma_root_covers(s, parent(i));
        assert(ge(s[parent(i)], s[i]));
        assert(ge(s[0], s[parent(i)]) && ge(s[parent(i)], s[i]) ==> ge(s[0], s[i]));
    }
}

/// In a heap no element exceeds the root.
pub proof fn lemma_root_is_max<T: PartialOrd>(s: Seq<T>)
    requires
        total_order::<T>(),
        is_heap(s),
    ensures
        forall|i: int| 0 <= i < s.len() ==> ge(s[0], #[trigger] s[i]),
{
    assert forall|i: int| 0 <= i < s.len() implies ge(s[0], #[trigger] s[i]) by {
        lemma_root_covers(s, i);
    }
}

/// Inserting into a heap gives a heap with one more element: the old
/// elements and the new one.
pub proof fn lemma_pushed<T: PartialOrd>(s: Seq<T>, value: T)
    ensures
        pushed(s, value).len() == s.len() + 1,
        pushed(s, value).to_multiset() == s.to_multiset().insert(value),
        total_order::<T>() && is_heap(s) ==> is_heap(pushed(s, value)),
{
    let t = s.push(value);
    let k = s.len() as int;
    lemma_sift_up_keeps(t, k);
    vstd::seq_lib::to_multiset_build(s, value);
    if total_order::<T>() && is_heap(s) {
        assert forall|i: int| 0 < i < t.len() && i != k implies ge(
            t[parent(i)],
            #[trigger] t[i],
        ) by {
            assert(ge(s[parent(i)], s[i]));
        }
        lemma_sift_up_heap(t, k);
    }
}

/// Removing the root of a non-empty heap gives a heap with one element
/// less: the old elements without the old root.
pub proof fn lemma_popped<T: PartialOrd>(s: Seq<T>)
    requires
        s.len() > 0,
    ensures
        popped(s).len() == s.len() - 1,
        popped(s).to_multiset() == s.to_multiset().remove(s[0]),
        total_order::<T>() && is_heap(s) ==> is_heap(popped(s)),
{
    let t = s.update(0, s.last()).drop_last();
    lemma_sift_down_keeps(t, 0);
    assert(t.to_multiset() == s.to_multiset().remove(s[0])) by {
        if s.len() == 1 {
            vstd::seq_lib::to_multiset_remove(s, 0);
            assert(t =~= s.remove(0));
        } else {
            let rest = s.remove(0);
            vstd::seq_lib::to_multiset_remove(s, 0);
            assert(rest =~= rest.drop_last().push(rest.last()));
            vstd::seq_lib::to_multiset_build(rest.drop_last(), rest.last());
            vstd::seq_lib::to_multiset_insert(rest.drop_last(), 0, rest.last());
            assert(t =~= rest.drop_last().insert(0, rest.last()));
        }
    }
    if total_order::<T>() && is_heap(s) {
        assert forall|i: int| 0 < i < t.len() && parent(i) != 0 implies ge(
            t[parent(i)],
            #[trigger] t[i],
        ) by {
            assert(ge(s[parent(i)], s[i]));
        }
        lemma_sift_down_heap(t, 0);
    }
}

} // verus!
