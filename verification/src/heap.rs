//! The heap itself: a vector kept in heap order by sifting.

use vstd::prelude::*;
use crate::order::{comparable, ge, total_order};
use crate::sift::{lemma_popped, lemma_pushed, lemma_root_is_max, lemma_swapped_multiset};
use crate::model::{is_heap, left, parent, popped, pushed, right, sift_down, sift_up, valid_at};

verus! {

/// Trusted: `swap` on slices. It exchanges the elements at `a` and `b` and
/// leaves every other element where it is. It panics when an index is out of
/// bounds, so both must be within the slice.
pub assume_specification<U>[ <[U]>::swap ](slice: &mut [U], a: usize, b: usize)
    requires
        a < old(slice)@.len(),
        b < old(slice)@.len(),
    ensures
        final(slice)@ == old(slice)@.update(a as int, old(slice)@[b as int]).update(
            b as int,
            old(slice)@[a as int],
        ),
;

/// A binary max-heap.
#[derive(Debug)]
pub struct Heap<T: PartialOrd> {
    list: Vec<T>,
}

impl<T: PartialOrd> View for Heap<T> {
    type V = Seq<T>;

    /// The elements in storage order: the root first, then level by level.
    closed spec fn view(&self) -> Seq<T> {
        self.list@
    }
}

impl<T: PartialOrd> Heap<T> {
    /// The stored elements are in heap order.
    pub open spec fn wf(&self) -> bool {
        is_heap(self@)
    }

    /// An empty heap.
    pub fn new() -> (heap: Heap<T>)
        ensures
            heap@ == Seq::<T>::empty(),
            heap.wf(),
    {
        Heap { list: Vec::new() }
    }

    /// The elements in storage order.
    pub fn as_slice(&self) -> (elements: &[T])
        ensures
            elements@ == self@,
    {
        self.list.as_slice()
    }

    /// Get the maximum value in the heap or `None` if the heap is empty.
    pub fn peek(&self) -> (top: Option<&T>)
        ensures
            self@.len() == 0 ==> top is None,
            self@.len() > 0 ==> top == Some(&self@[0]),
            total_order::<T>() && self.wf() ==> forall|i: int|
                0 <= i < self@.len() ==> ge(self@[0], #[trigger] self@[i]),
    {
        broadcast use vstd::slice::axiom_slice_get_usize;

        proof {
            if total_order::<T>() && self.wf() {
                lemma_root_is_max(self@);
            }
        }
        self.list.get(0)
    }

    /// Add a value to the heap.
    pub fn push(&mut self, value: T)
        ensures
            final(self)@.len() == old(self)@.len() + 1,
            final(self)@.to_multiset() == old(self)@.to_multiset().insert(value),
            comparable::<T>() ==> final(self)@ == pushed(old(self)@, value),
            total_order::<T>() && old(self).wf() ==> final(self).wf(),
    {
        proof {
            vstd::seq_lib::to_multiset_build(self@, value);
            lemma_pushed(self@, value);
        }
        self.list.push(value);
        let index = self.list.len() - 1;
        self.heapify_up(index)
    }

    /// Remove the maximum value in the heap or `None` if the heap is empty.
    pub fn pop(&mut self) -> (top: Option<T>)
        ensures
            old(self)@.len() == 0 ==> top is None && final(self)@ == old(self)@,
            old(self)@.len() > 0 ==> top == Some(old(self)@[0]),
            old(self)@.len() > 0 ==> final(self)@.len() == old(self)@.len() - 1,
            old(self)@.len() > 0 ==> final(self)@.to_multiset() == old(self)@.to_multiset().remove(
                old(self)@[0],
            ),
            comparable::<T>() ==> final(self)@ == popped(old(self)@),
            total_order::<T>() && old(self).wf() ==> final(self).wf(),
            total_order::<T>() && old(self).wf() ==> forall|i: int|
                0 <= i < old(self)@.len() ==> ge(old(self)@[0], #[trigger] old(self)@[i]),
    {
        proof {
            if total_order::<T>() && self.wf() {
                lemma_root_is_max(self@);
            }
        }
        if self.list.len() == 0 {
            return None;
        }
        proof {
            lemma_popped(self@);
            vstd::seq_lib::to_multiset_remove(self@, 0);
        }

        // Get the maximum value
        let result = self.list.remove(0);

        // Move the last element to the front.
        // If there is only one element, the list is now empty.
        if self.list.len() > 0 {
            let ghost rest = self@;
            let last = self.list.pop().unwrap();
            self.list.insert(0, last);
            proof {
                assert(rest =~= rest.drop_last().push(rest.last()));
                vstd::seq_lib::to_multiset_build(rest.drop_last(), rest.last());
                vstd::seq_lib::to_multiset_insert(rest.drop_last(), 0, rest.last());
            }
        }
        assert(self@ =~= old(self)@.update(0, old(self)@.last()).drop_last());

        self.heapify_down(0);

        Some(result)
    }

    /// Reorganize the heap upwards to make it valid again.
    /// The index parameter is where to start the heapify operation.
    fn heapify_up(&mut self, mut index: usize)
        requires
            index < old(self)@.len(),
        ensures
            final(self)@.len() == old(self)@.len(),
            final(self)@.to_multiset() == old(self)@.to_multiset(),
            comparable::<T>() ==> final(self)@ == sift_up(old(self)@, index as int),
    {
        let ghost start = index;
        while !self.is_valid(index)
            invariant
                index < self@.len(),
                self@.len() == old(self)@.len(),
                self@.to_multiset() == old(self)@.to_multiset(),
                comparable::<T>() ==> sift_up(self@, index as int) == sift_up(
                    old(self)@,
                    start as int,
                ),
            decreases index,
        {
            let parent = self.parent(index);
            proof {
                lemma_swapped_multiset(self@, index as int, parent as int);
            }
            self.list.swap(index, parent);
            index = parent;
        }
    }

    /// Reorganize the heap downwards to make it valid again.
    /// The index parameter is where to start the heapify operation.
    fn heapify_down(&mut self, mut index: usize)
        ensures
            final(self)@.len() == old(self)@.len(),
            final(self)@.to_multiset() == old(self)@.to_multiset(),
            comparable::<T>() ==> final(self)@ == sift_down(old(self)@, index as int),
    {
        let ghost start = index;
        loop
            invariant
                self@.len() == old(self)@.len(),
                self@.to_multiset() == old(self)@.to_multiset(),
                comparable::<T>() ==> sift_down(self@, index as int) == sift_down(
                    old(self)@,
                    start as int,
                ),
            ensures
                comparable::<T>() ==> self@ == sift_down(old(self)@, start as int),
            decreases self@.len() - index,
        {
            // A node in the second half of the list has no children.
            if index >= self.list.len() / 2 {
                break;
            }
            let (left_index, right_index) = (self.left(index), self.right(index));
            let mut largest: usize = index;

            // Check if the left child is larger
            if left_index < self.list.len() && self.list[left_index] > self.list[largest] {
                largest = left_index;
            }

            // Check if the right child is larger
            if right_index < self.list.len() && self.list[right_index] > self.list[largest] {
                largest = right_index;
            }

            // Stop once the tree is valid
            if largest == index {
                break;
            }

            // Otherwise swap them and try again
            proof {
                lemma_swapped_multiset(self@, index as int, largest as int);
            }
            self.list.swap(index, largest);
            index = largest;
        }
    }

    /// Check if the entry is valid (compares with parent)
    fn is_valid(&self, index: usize) -> (valid: bool)
        requires
            index < self@.len(),
        ensures
            index == 0 ==> valid,
            comparable::<T>() ==> valid == valid_at(self@, index as int),
    {
        index == 0 || self.list[self.parent(index)] >= self.list[index]
    }

    /// Get the parent index of the entry at the index
    fn parent(&self, index: usize) -> (p: usize)
        requires
            index > 0,
        ensures
            p == parent(index as int),
            p < index,
    {
        (index - 1) / 2
    }

    /// Get the left child index of the entry at the index
    fn left(&self, index: usize) -> (l: usize)
        requires
            left(index as int) <= usize::MAX,
        ensures
            l == left(index as int),
    {
        index * 2 + 1
    }

    /// Get the right child index of the entry at the index
    fn right(&self, index: usize) -> (r: usize)
        requires
            right(index as int) <= usize::MAX,
        ensures
            r == right(index as int),
    {
        self.left(index) + 1
    }
}

} // verus!
