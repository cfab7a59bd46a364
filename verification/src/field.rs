//! The contract of a field: two identities, four operations and equality.
use vstd::prelude::*;

verus! {

/// The failure of a division whose divisor is the additive identity.
#[derive(Clone, Copy, Debug, PartialEq, Eq, Structural)]
pub struct DivisionByZero;

/// A type with a multiplicative identity.
pub trait One: Sized + View {
    /// The mathematical value of the identity.
    spec fn one_view() -> Self::V;

    fn one() -> (r: Self)
        ensures
            r@ == Self::one_view(),
    ;
}

/// A type with an additive identity.
pub trait Zero: Sized + View {
    /// The mathematical value of the identity.
    spec fn zero_view() -> Self::V;

    fn zero() -> (r: Self)
        ensures
            r@ == Self::zero_view(),
    ;
}

impl One for i32 {
    open spec fn one_view() -> i32 {
        1i32
    }

    fn one() -> (r: i32) {
        1
    }
}

impl Zero for i32 {
    open spec fn zero_view() -> i32 {
        0i32
    }

    fn zero() -> (r: i32) {
        0
    }
}

impl One for u8 {
    open spec fn one_view() -> u8 {
        1u8
    }

    fn one() -> (r: u8) {
        1
    }
}

impl Zero for u8 {
    open spec fn zero_view() -> u8 {
        0u8
    }

    fn zero() -> (r: u8) {
        0
    }
}

/// The operations of a field on a type whose values are read through a view.
///
/// Every operation is specified by a function on views, so that two
/// representations of one value cannot be told apart by any operation.
/// Division is the only partial operation: it fails exactly on a zero divisor.
pub trait Field: Sized + Clone + Zero + One {
    spec fn add_view(a: Self::V, b: Self::V) -> Self::V;

    spec fn sub_view(a: Self::V, b: Self::V) -> Self::V;

    spec fn mul_view(a: Self::V, b: Self::V) -> Self::V;

    spec fn div_view(a: Self::V, b: Self::V) -> Self::V;

    fn add(self, rhs: Self) -> (r: Self)
        ensures
            r@ == Self::add_view(self@, rhs@),
    ;

    fn sub(self, rhs: Self) -> (r: Self)
        ensures
            r@ == Self::sub_view(self@, rhs@),
    ;

    fn mul(self, rhs: Self) -> (r: Self)
        ensures
            r@ == Self::mul_view(self@, rhs@),
    ;

    fn div(self, rhs: Self) -> (r: Result<Self, DivisionByZero>)
        ensures
            r is Err <==> rhs@ == Self::zero_view(),
            r matches Ok(v) ==> v@ == Self::div_view(self@, rhs@),
    ;

    /// Equality of values.
    fn same(&self, other: &Self) -> (r: bool)
        ensures
            r == (self@ == other@),
    ;

    /// A copy has the value of its source.
    proof fn clone_keeps_view(a: Self, b: Self)
        requires
            cloned::<Self>(a, b),
        ensures
            a@ == b@,
    ;
}

/// The axioms of a field, stated on views.
///
/// A type implements this trait by proving each axiom of its own operations;
/// everything else that holds in a field is derived from these.
pub trait FieldLaws: Field {
    proof fn add_commutative(a: Self::V, b: Self::V)
        ensures
            Self::add_view(a, b) == Self::add_view(b, a),
    ;

    proof fn add_associative(a: Self::V, b: Self::V, c: Self::V)
        ensures
            Self::add_view(Self::add_view(a, b), c) == Self::add_view(a, Self::add_view(b, c)),
    ;

    proof fn add_zero(a: Self::V)
        ensures
            Self::add_view(a, Self::zero_view()) == a,
    ;

    proof fn sub_undoes_add(a: Self::V, b: Self::V)
        ensures
            Self::add_view(Self::sub_view(a, b), b) == a,
    ;

    proof fn mul_commutative(a: Self::V, b: Self::V)
        ensures
            Self::mul_view(a, b) == Self::mul_view(b, a),
    ;

    proof fn mul_associative(a: Self::V, b: Self::V, c: Self::V)
        ensures
            Self::mul_view(Self::mul_view(a, b), c) == Self::mul_view(a, Self::mul_view(b, c)),
    ;

    proof fn mul_one(a: Self::V)
        ensures
            Self::mul_view(a, Self::one_view()) == a,
    ;

    proof fn div_undoes_mul(a: Self::V, b: Self::V)
        requires
            b != Self::zero_view(),
        ensures
            Self::mul_view(Self::div_view(a, b), b) == a,
    ;

    proof fn distributive(a: Self::V, b: Self::V, c: Self::V)
        ensures
            Self::mul_view(a, Self::add_view(b, c)) == Self::add_view(
                Self::mul_view(a, b),
                Self::mul_view(a, c),
            ),
    ;

    proof fn one_is_not_zero()
        ensures
            Self::one_view() != Self::zero_view(),
    ;
}

/// Zero is also a left identity of addition.
pub proof fn lemma_zero_add<T: FieldLaws>(a: T::V)
    ensures
        T::add_view(T::zero_view(), a) == a,
{
    T::add_commutative(T::zero_view(), a);
    T::add_zero(a);
}

/// Addition can be cancelled on the right.
pub proof fn lemma_add_cancel<T: FieldLaws>(a: T::V, b: T::V, c: T::V)
    requires
        T::add_view(a, c) == T::add_view(b, c),
    ensures
        a == b,
{
    let z = T::zero_view();
    let n = T::sub_view(z, c);
    T::sub_undoes_add(z, c);
    T::add_commutative(n, c);
    T::add_associative(a, c, n);
    T::add_associative(b, c, n);
    T::add_zero(a);
    T::add_zero(b);
}

/// A value minus itself is zero.
pub proof fn lemma_sub_self<T: FieldLaws>(a: T::V)
    ensures
        T::sub_view(a, a) == T::zero_view(),
{
    T::sub_undoes_add(a, a);
    lemma_zero_add::<T>(a);
    lemma_add_cancel::<T>(T::sub_view(a, a), T::zero_view(), a);
}

/// A product with a zero factor is zero.
pub proof fn lemma_mul_zero<T: FieldLaws>(a: T::V)
    ensures
        T::mul_view(a, T::zero_view()) == T::zero_view(),
        T::mul_view(T::zero_view(), a) == T::zero_view(),
{
    let z = T::zero_view();
    let p = T::mul_view(a, z);
    T::add_zero(z);
    T::distributive(a, z, z);
    lemma_zero_add::<T>(p);
    lemma_add_cancel::<T>(p, z, p);
    T::mul_commutative(a, z);
}

/// Scaling by the inverse of a nonzero value and then by the value itself
/// gives back what was scaled.
pub proof fn lemma_scaled_back<T: FieldLaws>(d: T::V, a: T::V)
    requires
        d != T::zero_view(),
    ensures
        T::mul_view(d, T::mul_view(T::div_view(T::one_view(), d), a)) == a,
{
    let inv = T::div_view(T::one_view(), d);
    T::div_undoes_mul(T::one_view(), d);
    T::mul_commutative(inv, d);
    T::mul_associative(d, inv, a);
    T::mul_commutative(T::one_view(), a);
    T::mul_one(a);
}

/// `(x + m) + (y - m) == x + y`.
pub proof fn lemma_add_sub_cancel<T: FieldLaws>(x: T::V, m: T::V, y: T::V)
    ensures
        T::add_view(T::add_view(x, m), T::sub_view(y, m)) == T::add_view(x, y),
{
    let d = T::sub_view(y, m);
    T::sub_undoes_add(y, m);
    T::add_associative(x, m, d);
    T::add_commutative(m, d);
}

/// The inverse of a nonzero value: `(1 / y) * y == 1` and `y * (1 / y) == 1`.
pub proof fn lemma_inverse<T: FieldLaws>(y: T::V)
    requires
        y != T::zero_view(),
    ensures
        T::mul_view(T::div_view(T::one_view(), y), y) == T::one_view(),
        T::mul_view(y, T::div_view(T::one_view(), y)) == T::one_view(),
{
    T::div_undoes_mul(T::one_view(), y);
    T::mul_commutative(T::div_view(T::one_view(), y), y);
}

/// A product of nonzero values is not zero.
pub proof fn lemma_mul_nonzero<T: FieldLaws>(x: T::V, y: T::V)
    requires
        x != T::zero_view(),
        y != T::zero_view(),
    ensures
        T::mul_view(x, y) != T::zero_view(),
{
    let inv = T::div_view(T::one_view(), y);
    if T::mul_view(x, y) == T::zero_view() {
        lemma_inverse::<T>(y);
        T::mul_associative(x, y, inv);
        T::mul_one(x);
        lemma_mul_zero::<T>(inv);
    }
}

/// Multiplication by a nonzero value can be cancelled.
pub proof fn lemma_mul_cancel<T: FieldLaws>(a: T::V, b: T::V, c: T::V)
    requires
        c != T::zero_view(),
        T::mul_view(a, c) == T::mul_view(b, c),
    ensures
        a == b,
{
    let inv = T::div_view(T::one_view(), c);
    lemma_inverse::<T>(c);
    T::mul_associative(a, c, inv);
    T::mul_associative(b, c, inv);
    T::mul_one(a);
    T::mul_one(b);
}

/// A nonzero value divided by itself is one.
pub proof fn lemma_div_self<T: FieldLaws>(a: T::V)
    requires
        a != T::zero_view(),
    ensures
        T::div_view(a, a) == T::one_view(),
{
    T::div_undoes_mul(a, a);
    T::mul_commutative(T::one_view(), a);
    T::mul_one(a);
    lemma_mul_cancel::<T>(T::div_view(a, a), T::one_view(), a);
}

} // verus!
