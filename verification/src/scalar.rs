//! The number type of a tensor, and the vocabulary for the outcomes of its
//! arithmetic.
use vstd::prelude::*;
use core::ops::Add;
use core::ops::Mul;

verus! {

/// A number that a tensor can hold: it is copied freely, is closed under `+`
/// and `*`, and has an image of the small integers, from which zero and one
/// are taken.
pub trait Scalar: Copy + From<u8> + Add<Output = Self> + Mul<Output = Self> {

}

impl<T: Copy + From<u8> + Add<Output = T> + Mul<Output = T>> Scalar for T {

}

/// `x` is an outcome of converting the small integer `n`. The outcomes of
/// converting 1 are the ones of the number type.
pub open spec fn represents<T: Scalar>(n: u8, x: T) -> bool {
    call_ensures(<T as From<u8>>::from, (n,), x)
}

/// `z` is a zero of the number type.
pub open spec fn is_zero<T: Scalar>(z: T) -> bool {
    represents(0u8, z)
}

/// The number type accepts `x + y`.
pub open spec fn can_add<T: Scalar>(x: T, y: T) -> bool {
    call_requires(<T as Add>::add, (x, y))
}

/// The number type accepts `x * y`.
pub open spec fn can_mul<T: Scalar>(x: T, y: T) -> bool {
    call_requires(<T as Mul>::mul, (x, y))
}

/// `s` is an outcome of `x + y`.
pub open spec fn is_sum<T: Scalar>(x: T, y: T, s: T) -> bool {
    call_ensures(<T as Add>::add, (x, y), s)
}

/// `p` is an outcome of `x * y`.
pub open spec fn is_product<T: Scalar>(x: T, y: T, p: T) -> bool {
    call_ensures(<T as Mul>::mul, (x, y), p)
}

/// Every sum and every product is accepted, as it is for numbers that
/// neither overflow nor trap.
pub open spec fn arithmetic_is_total<T: Scalar>() -> bool {
    &&& forall|x: T, y: T| #[trigger] can_add(x, y)
    &&& forall|x: T, y: T| #[trigger] can_mul(x, y)
}

/// Each operation has exactly one outcome for given operands.
pub open spec fn arithmetic_is_functional<T: Scalar>() -> bool {
    &&& forall|n: u8, a: T, b: T| #[trigger] represents(n, a) && #[trigger] represents(n, b) ==> a == b
    &&& forall|x: T, y: T, a: T, b: T| #[trigger] is_sum(x, y, a) && #[trigger] is_sum(x, y, b) ==> a == b
    &&& forall|x: T, y: T, a: T, b: T|
        #[trigger] is_product(x, y, a) && #[trigger] is_product(x, y, b) ==> a == b
}

/// Converts the small integer `n` into the number type.
pub(crate) fn number<T: Scalar>(n: u8) -> (x: T)
    ensures
        represents(n, x),
{
    T::from(n)
}

} // verus!
