//! What holds of a heap over its whole life: after any run of insertions and
//! removals it is a heap of the expected size, and emptying it hands the
//! elements out from the greatest down.

use vstd::prelude::*;
use crate::order::{ge, total_order};
use crate::model::{is_heap, popped, pushed};
use crate::sift::{lemma_popped, lemma_pushed, lemma_root_covers};

verus! {

/// One operation on a heap.
pub enum Op<T> {
    /// Insert the value.
    Push(T),
    /// Remove the maximum, if there is one.
    Pop,
}

/// The heap `s` after `op`.
pub open spec fn applied<T: PartialOrd>(s: Seq<T>, op: Op<T>) -> Seq<T> {
    match op {
        Op::Push(value) => pushed(s, value),
        Op::Pop => popped(s),
    }
}

/// The heap that results from the operations `ops`, first to last, on an
/// empty heap.
pub open spec fn run<T: PartialOrd>(ops: Seq<Op<T>>) -> Seq<T>
    decreases ops.len(),
{
    if ops.len() == 0 {
        Seq::empty()
    } else {
        applied(run(ops.drop_last()), ops.last())
    }
}

/// How many of `ops` are insertions.
pub open spec fn pushes<T: PartialOrd>(ops: Seq<Op<T>>) -> nat
    decreases ops.len(),
{
    if ops.len() == 0 {
        0
    } else if ops.last() is Push {
        pushes(ops.drop_last()) + 1
    } else {
        pushes(ops.drop_last())
    }
}

/// How many of `ops`, run on an empty heap, are removals that find an
/// element.
pub open spec fn pops<T: PartialOrd>(ops: Seq<Op<T>>) -> nat
    decreases ops.len(),
{
    if ops.len() == 0 {
        0
    } else if ops.last() is Pop && run(ops.drop_last()).len() > 0 {
        pops(ops.drop_last()) + 1
    } else {
        pops(ops.drop_last())
    }
}

/// No element is exceeded by a later one.
pub open spec fn sorted_desc<T: PartialOrd>(s: Seq<T>) -> bool {
    forall|i: int, j: int| 0 <= i < j < s.len() ==> ge(s[i], s[j])
}

/// The heap that results from inserting `values`, first to last, into an
/// empty heap.
pub open spec fn built<T: PartialOrd>(values: Seq<T>) -> Seq<T>
    decreases values.len(),
{
    if values.len() == 0 {
        Seq::empty()
    } else {
        pushed(built(values.drop_last()), values.last())
    }
}

/// The values that removals from `s` return, first to last, until `s` is
/// empty.
pub open spec fn drained<T: PartialOrd>(s: Seq<T>) -> Seq<T>
    decreases s.len(),
    via drained_decreases::<T>
{
    if s.len() == 0 {
        Seq::empty()
    } else {
        seq![s[0]] + drained(popped(s))
    }
}

#[via_fn]
proof fn drained_decreases<T: PartialOrd>(s: Seq<T>) {
    if s.len() > 0 {
        lemma_popped(s);
    }
}

/// After any run of insertions and removals on an empty heap, no node is
/// exceeded by one of its children.
pub proof fn lemma_run_is_heap<T: PartialOrd>(ops: Seq<Op<T>>)
    requires
        total_order::<T>(),
    ensures
        is_heap(run(ops)),
    decreases ops.len(),
{
    if ops.len() > 0 {
        let before = run(ops.drop_last());
        lemma_run_is_heap(ops.drop_last());
        match ops.last() {
            Op::Push(value) => {
                lemma_pushed(before, value);
            },
            Op::Pop => {
                if before.len() > 0 {
                    lemma_popped(before);
                }
            },
        }
    }
}

/// After any run of insertions and removals on an empty heap, the heap
/// holds as many elements as were inserted, less the removals that found
/// one.
pub proof fn lemma_run_len<T: PartialOrd>(ops: Seq<Op<T>>)
    ensures
        pops(ops) <= pushes(ops),
        run(ops).len() == pushes(ops) - pops(ops),
    decreases ops.len(),
{
    if ops.len() > 0 {
        let before = run(ops.drop_last());
        lemma_run_len(ops.drop_last());
        match ops.last() {
            Op::Push(value) => {
                lemma_pushed(before, value);
            },
            Op::Pop => {
                if before.len() > 0 {
                    lemma_popped(before);
                }
            },
        }
    }
}

/// Removal from an empty heap leaves it empty, however often it is
/// repeated.
pub proof fn lemma_pop_empty<T: PartialOrd>(n: nat)
    ensures
        popped(Seq::<T>::empty()) == Seq::<T>::empty(),
        run(Seq::new(n, |i: int| Op::<T>::Pop)) == Seq::<T>::empty(),
    decreases n,
{
    if n > 0 {
        let ops = Seq::new(n, |i: int| Op::<T>::Pop);
        let fewer = Seq::new((n - 1) as nat, |i: int| Op::<T>::Pop);
        assert(ops.drop_last() =~= fewer);
        lemma_pop_empty::<T>((n - 1) as nat);
    }
}

/// Inserting values one by one gives a heap that holds exactly those
/// values.
pub proof fn lemma_built<T: PartialOrd>(values: Seq<T>)
    ensures
        built(values).len() == values.len(),
        built(values).to_multiset() == values.to_multiset(),
        total_order::<T>() ==> is_heap(built(values)),
    decreases values.len(),
{
    if values.len() > 0 {
        let init = values.drop_last();
        lemma_built(init);
        lemma_pushed(built(init), values.last());
        assert(values =~= init.push(values.last()));
        vstd::seq_lib::to_multiset_build(init, values.last());
    } else {
        assert(values =~= Seq::empty());
    }
}

/// Emptying a heap hands out exactly its elements.
pub proof fn lemma_drained_keeps<T: PartialOrd>(s: Seq<T>)
    ensures
        drained(s).len() == s.len(),
        drained(s).to_multiset() == s.to_multiset(),
    decreases s.len(),
{
    broadcast use vstd::multiset::group_multiset_axioms;

    if s.len() > 0 {
        let rest = drained(popped(s));
        lemma_popped(s);
        lemma_drained_keeps(popped(s));
        vstd::seq_lib::to_multiset_insert(rest, 0, s[0]);
        assert(seq![s[0]] + rest =~= rest.insert(0, s[0]));
        vstd::seq_lib::to_multiset_contains(s, s[0]);
        assert(s.contains(s[0]));
        assert(drained(s).to_multiset() =~= s.to_multiset());
    } else {
        assert(drained(s) =~= s);
    }
}

/// Emptying a heap hands its elements out in non-increasing order.
pub proof fn lemma_drained_sorted<T: PartialOrd>(s: Seq<T>)
    requires
        total_order::<T>(),
        is_heap(s),
    ensures
        sorted_desc(drained(s)),
    decreases s.len(),
{
    broadcast use vstd::multiset::group_multiset_axioms;

    if s.len() > 0 {
        let rest = drained(popped(s));
        let out = drained(s);
        lemma_popped(s);
        lemma_drained_sorted(popped(s));
        lemma_drained_keeps(popped(s));
        assert forall|i: int, j: int| 0 <= i < j < out.len() implies ge(out[i], out[j]) by {
            if i == 0 {
                let x = rest[j - 1];
                vstd::seq_lib::to_multiset_contains(rest, x);
                vstd::seq_lib::to_multiset_contains(s, x);
                assert(rest.contains(x));
                assert(s.contains(x));
                let k = choose|k: int| 0 <= k < s.len() && s[k] == x;
                lemma_root_covers(s, k);
            } else {
                assert(ge(rest[i - 1], rest[j - 1]));
            }
        }
    }
}

/// Inserting values and then emptying the heap hands the same values back,
/// in non-increasing order.
pub proof fn lemma_round_trip<T: PartialOrd>(values: Seq<T>)
    requires
        total_order::<T>(),
    ensures
        drained(built(values)).len() == values.len(),
        drained(built(values)).to_multiset() == values.to_multiset(),
        sorted_desc(drained(built(values))),
{
    lemma_built(values);
    lemma_drained_keeps(built(values));
    lemma_drained_sorted(built(values));
}

} // verus!
