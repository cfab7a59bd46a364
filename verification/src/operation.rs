//! Division with remainder, the extended Euclidean algorithm and the modular
//! inverse, as contracts over views.
use crate::field::DivisionByZero;
use vstd::prelude::*;

verus! {

/// Division with remainder.
pub trait DivRem: Sized + View {
    /// Whether `d` is a zero, by which nothing can be divided.
    spec fn zero_divisor(d: Self::V) -> bool;

    /// Quotient and remainder of `a` by a nonzero `d`.
    spec fn divrem_view(a: Self::V, d: Self::V) -> (Self::V, Self::V);

    fn divrem(self, rhs: Self) -> (r: Result<(Self, Self), DivisionByZero>)
        ensures
            r is Err <==> Self::zero_divisor(rhs@),
            r matches Ok(p) ==> (p.0@, p.1@) == Self::divrem_view(self@, rhs@),
    ;
}

/// The extended Euclidean algorithm.
pub trait Egcd: Sized + View {
    /// The pair `(s, t)` with `s * a + t * b` a greatest common divisor of `a` and `b`.
    spec fn egcd_view(a: Self::V, b: Self::V) -> (Self::V, Self::V);

    fn egcd(self, rhs: Self) -> (r: (Self, Self))
        ensures
            (r.0@, r.1@) == Self::egcd_view(self@, rhs@),
    ;
}

/// The inverse modulo a nonzero modulus.
pub trait ModInv: Sized + View {
    /// Whether `m` is a zero, modulo which nothing has an inverse.
    spec fn zero_modulus(m: Self::V) -> bool;

    /// The first coefficient that the extended Euclidean algorithm gives for
    /// `a` and `m`: the inverse of `a` modulo `m` where the two are coprime.
    spec fn modinv_view(a: Self::V, m: Self::V) -> Self::V;

    fn modinv(self, modulo: Self) -> (r: Result<Self, DivisionByZero>)
        ensures
            r is Err <==> Self::zero_modulus(modulo@),
            r matches Ok(v) ==> v@ == Self::modinv_view(self@, modulo@),
    ;
}

} // verus!
