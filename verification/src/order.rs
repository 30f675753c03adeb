//! The ordering that keys are compared by, as contracts see it.
//!
//! The tree compares keys with `<` and `>` only. What those operators
//! compute on a type `T` is what `T` says of its `partial_cmp`; `lt` and
//! `gt` name the two outcomes, and `total_order` says what the tree needs
//! of them.

use core::cmp::Ordering;
use vstd::prelude::*;
use vstd::std_specs::cmp::PartialOrdSpec;

verus! {

/// `a` is strictly below `b`: what `a < b` computes.
pub open spec fn lt<T: PartialOrd>(a: T, b: T) -> bool {
    a.partial_cmp_spec(&b) == Some(Ordering::Less)
}

/// `a` is strictly above `b`: what `a > b` computes.
pub open spec fn gt<T: PartialOrd>(a: T, b: T) -> bool {
    a.partial_cmp_spec(&b) == Some(Ordering::Greater)
}

/// The comparison operators of `T` do what `lt` and `gt` say, and these
/// describe a strict total order: `a > b` means `b < a`, of two different
/// keys one is below the other, no key is below itself or below a key
/// that is below it, and "below" carries over from `a < b` and `b < c` to
/// `a < c`. Two keys that are neither below nor above each other are the
/// same value.
pub open spec fn total_order<T: PartialOrd>() -> bool {
    &&& T::obeys_partial_cmp_spec()
    &&& forall|a: T, b: T| #[trigger] gt(a, b) <==> lt(b, a)
    &&& forall|a: T, b: T| a != b ==> #[trigger] lt(a, b) || lt(b, a)
    &&& forall|a: T, b: T| #[trigger] lt(a, b) ==> a != b && !lt(b, a)
    &&& forall|a: T, b: T, c: T| #[trigger] lt(a, b) && #[trigger] lt(b, c) ==> lt(a, c)
}

/// The signed integers are totally ordered.
pub proof fn lemma_total_order_signed()
    ensures
        total_order::<i8>(),
        total_order::<i16>(),
        total_order::<i32>(),
        total_order::<i64>(),
        total_order::<i128>(),
        total_order::<isize>(),
{
}

/// The unsigned integers are totally ordered.
pub proof fn lemma_total_order_unsigned()
    ensures
        total_order::<u8>(),
        total_order::<u16>(),
        total_order::<u32>(),
        total_order::<u64>(),
        total_order::<u128>(),
        total_order::<usize>(),
{
}

} // verus!
