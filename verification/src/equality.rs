//! What the contracts of this library ask of an element type's `==`.

use vstd::laws_eq::obeys_concrete_eq;
use vstd::prelude::*;
use vstd::std_specs::cmp::PartialEqSpec;

verus! {

/// Whether `==` on `T` tells exactly whether two values are the same.
///
/// The integer types and `bool` meet this, and so do tuples, options and
/// references of types that do.
///
/// Not covered are the types of which vstd does not say what their `==` does,
/// among them `&str`, `String` and `char`, and the floating-point types,
/// whose `==` does not decide equality: a zero equals the zero of the other
/// sign, and a NaN does not equal itself. On lists of such elements the
/// functions that compare elements still run, and their contracts promise
/// only what does not depend on a comparison.
pub open spec fn decides_equality<T: PartialEq>() -> bool {
    &&& T::obeys_eq_spec()
    &&& forall|a: T, b: T| #[trigger] a.eq_spec(&b) <==> a == b
}

/// `decides_equality` says what vstd's `obeys_concrete_eq` says, so a type
/// that is known to meet the one meets the other.
pub proof fn lemma_decides_equality_is_concrete_eq<T: PartialEq>()
    ensures
        decides_equality::<T>() == obeys_concrete_eq::<T>(),
{
    reveal(obeys_concrete_eq);
}

} // verus!
