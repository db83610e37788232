//! The order on elements, as the heap sees it.
//!
//! Executable code compares elements with `>` and `>=`. The predicates here
//! give those comparisons a meaning in contracts, and `total_order` collects
//! what the heap needs of them.

use vstd::prelude::*;
use vstd::std_specs::cmp::PartialOrdSpec;
use core::cmp::Ordering;

verus! {

/// `a > b`.
pub open spec fn gt<T: PartialOrd>(a: T, b: T) -> bool {
    a.partial_cmp_spec(&b) == Some(Ordering::Greater)
}

/// `a >= b`.
pub open spec fn ge<T: PartialOrd>(a: T, b: T) -> bool {
    a.partial_cmp_spec(&b) == Some(Ordering::Greater) || a.partial_cmp_spec(&b) == Some(
        Ordering::Equal,
    )
}

/// The comparisons of `T` behave as their specification says.
pub open spec fn comparable<T: PartialOrd>() -> bool {
    T::obeys_partial_cmp_spec()
}

/// `>=` on `T` is total and transitive, and `>` is its strict part.
pub open spec fn total_order<T: PartialOrd>() -> bool {
    &&& comparable::<T>()
    &&& forall|a: T, b: T| #[trigger] ge(a, b) || ge(b, a)
    &&& forall|a: T, b: T, c: T| #[trigger] ge(a, b) && #[trigger] ge(b, c) ==> ge(a, c)
    &&& forall|a: T, b: T| #[trigger] gt(a, b) <==> !ge(b, a)
}

/// The built-in order on `i32` is a total order, and `>=` and `>` on it
/// are those of the integers.
pub proof fn lemma_i32_total_order()
    ensures
        total_order::<i32>(),
        forall|a: i32, b: i32| #[trigger] ge(a, b) <==> a >= b,
        forall|a: i32, b: i32| #[trigger] gt(a, b) <==> a > b,
{
}

} // verus!
