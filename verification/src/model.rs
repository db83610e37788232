//! The heap as a mathematical object: a sequence read as a complete binary
//! tree, the heap property on it, and what sifting, insertion and removal do
//! to it.

use vstd::prelude::*;
use crate::order::{ge, gt};

verus! {

/// Index of the parent of the node at index `i`, for `i > 0`.
pub open spec fn parent(i: int) -> int {
    (i - 1) / 2
}

/// Index of the left child of the node at index `i`.
pub open spec fn left(i: int) -> int {
    2 * i + 1
}

/// Index of the right child of the node at index `i`.
pub open spec fn right(i: int) -> int {
    2 * i + 2
}

/// `s` with the elements at `i` and `j` exchanged.
pub open spec fn swapped<T>(s: Seq<T>, i: int, j: int) -> Seq<T>
    recommends
        0 <= i < s.len(),
        0 <= j < s.len(),
{
    s.update(i, s[j]).update(j, s[i])
}

/// The max-heap property: no node is exceeded by one of its children.
pub open spec fn is_heap<T: PartialOrd>(s: Seq<T>) -> bool {
    forall|i: int| 0 < i < s.len() ==> ge(s[parent(i)], #[trigger] s[i])
}

/// The node at `i` is the root or does not exceed its parent.
pub open spec fn valid_at<T: PartialOrd>(s: Seq<T>, i: int) -> bool
    recommends
        0 <= i < s.len(),
{
    i == 0 || ge(s[parent(i)], s[i])
}

/// `s` after the element at `i` has moved towards the root, one exchange
/// with its parent at a time, until it is the root or does not exceed its
/// parent.
pub open spec fn sift_up<T: PartialOrd>(s: Seq<T>, i: int) -> Seq<T>
    decreases i,
{
    if 0 < i < s.len() && !valid_at(s, i) {
        sift_up(swapped(s, i, parent(i)), parent(i))
    } else {
        s
    }
}

/// Among the node at `i` and its children, the index of the greatest. The
/// node itself wins a tie, then the left child.
pub open spec fn largest<T: PartialOrd>(s: Seq<T>, i: int) -> int
    recommends
        0 <= i < s.len(),
{
    let l = if left(i) < s.len() && gt(s[left(i)], s[i]) {
        left(i)
    } else {
        i
    };
    if right(i) < s.len() && gt(s[right(i)], s[l]) {
        right(i)
    } else {
        l
    }
}

/// `s` after the element at `i` has moved towards the leaves, one exchange
/// with its greatest child at a time, until no child exceeds it.
pub open spec fn sift_down<T: PartialOrd>(s: Seq<T>, i: int) -> Seq<T>
    decreases s.len() - i,
{
    if 0 <= i < s.len() && largest(s, i) != i {
        sift_down(swapped(s, i, largest(s, i)), largest(s, i))
    } else {
        s
    }
}

/// The heap `s` after `value` has been inserted.
pub open spec fn pushed<T: PartialOrd>(s: Seq<T>, value: T) -> Seq<T> {
    sift_up(s.push(value), s.len() as int)
}

/// The heap `s` after its root has been removed; an empty heap stays empty.
pub open spec fn popped<T: PartialOrd>(s: Seq<T>) -> Seq<T> {
    if s.len() == 0 {
        s
    } else {
        sift_down(s.update(0, s.last()).drop_last(), 0)
    }
}

} // verus!
