//! The mathematical model of polynomials: sequences of coefficient values,
//! lowest degree first, and the ring operations on them.
//!
//! A sequence is one representation of a polynomial; appending zeros to it
//! gives another representation of the same polynomial.  The operations here
//! are defined on representations, and [`same_poly`] says when two of them
//! stand for one polynomial.
use crate::bit_wrapper::BitWrapper;
use crate::field::{Field, FieldLaws};
use crate::poly_order::lemma_remainder_smaller;
use vstd::prelude::*;

verus! {

/// The values of the items of a sequence.
pub open spec fn views<T: View>(s: Seq<T>) -> Seq<T::V> {
    Seq::new(s.len(), |i: int| s[i]@)
}

/// The coefficient of degree `i`; zero outside the sequence.
pub open spec fn coeff<T: Field>(s: Seq<T::V>, i: int) -> T::V {
    if 0 <= i < s.len() {
        s[i]
    } else {
        T::zero_view()
    }
}

/// Every coefficient is zero.
pub open spec fn is_zero<T: Field>(s: Seq<T::V>) -> bool {
    forall|i: int| 0 <= i < s.len() ==> s[i] == T::zero_view()
}

/// Two sequences stand for the same polynomial.
pub open spec fn same_poly<T: Field>(a: Seq<T::V>, b: Seq<T::V>) -> bool {
    forall|i: int|
        #![trigger coeff::<T>(a, i)]
        #![trigger coeff::<T>(b, i)]
        coeff::<T>(a, i) == coeff::<T>(b, i)
}

/// Every coefficient of degree `n` or more is zero.
pub open spec fn below<T: Field>(s: Seq<T::V>, n: int) -> bool {
    forall|i: int| n <= i < s.len() ==> s[i] == T::zero_view()
}

/// The highest degree with a nonzero coefficient, or 0 if there is none.
pub open spec fn order<T: Field>(s: Seq<T::V>) -> nat
    decreases s.len(),
{
    if s.len() == 0 {
        0
    } else if s.last() != T::zero_view() {
        (s.len() - 1) as nat
    } else {
        order::<T>(s.drop_last())
    }
}

/// The coefficient at the order: the leading coefficient of a nonzero polynomial.
pub open spec fn leading<T: Field>(s: Seq<T::V>) -> T::V {
    coeff::<T>(s, order::<T>(s) as int)
}

/// The polynomial with the single coefficient `c`.
pub open spec fn constant<T: Field>(c: T::V) -> Seq<T::V> {
    seq![c]
}

/// The zero polynomial in its shortest representation.
pub open spec fn zero_poly<T: Field>() -> Seq<T::V> {
    seq![T::zero_view()]
}

/// The polynomial one.
pub open spec fn one_poly<T: Field>() -> Seq<T::V> {
    seq![T::one_view()]
}

pub open spec fn max_len<V>(a: Seq<V>, b: Seq<V>) -> nat {
    if a.len() >= b.len() {
        a.len()
    } else {
        b.len()
    }
}

/// Coefficient-wise sum, the shorter operand extended by zeros.
pub open spec fn poly_add<T: Field>(a: Seq<T::V>, b: Seq<T::V>) -> Seq<T::V> {
    Seq::new(max_len(a, b), |i: int| T::add_view(coeff::<T>(a, i), coeff::<T>(b, i)))
}

/// Coefficient-wise difference, the shorter operand extended by zeros.
pub open spec fn poly_sub<T: Field>(a: Seq<T::V>, b: Seq<T::V>) -> Seq<T::V> {
    Seq::new(max_len(a, b), |i: int| T::sub_view(coeff::<T>(a, i), coeff::<T>(b, i)))
}

/// Coefficient-wise negation.
pub open spec fn poly_neg<T: Field>(a: Seq<T::V>) -> Seq<T::V> {
    Seq::new(a.len(), |i: int| T::sub_view(T::zero_view(), a[i]))
}

/// Multiplication by `x^k`: `k` zeros in front.
pub open spec fn poly_shl<T: Field>(a: Seq<T::V>, k: nat) -> Seq<T::V> {
    Seq::new(k, |i: int| T::zero_view()) + a
}

/// Division by `x^k` without remainder: the `k` lowest coefficients are
/// dropped, and a sequence that would become empty is the zero polynomial.
pub open spec fn poly_shr<T: Field>(a: Seq<T::V>, k: nat) -> Seq<T::V> {
    if k == 0 {
        a
    } else if k < a.len() {
        a.subrange(k as int, a.len() as int)
    } else {
        zero_poly::<T>()
    }
}

/// Every coefficient multiplied by `c` on the right.
pub open spec fn poly_scale<T: Field>(a: Seq<T::V>, c: T::V) -> Seq<T::V> {
    Seq::new(a.len(), |i: int| T::mul_view(a[i], c))
}

/// The term of degree `index` alone, or zero if the sequence has no such item.
pub open spec fn poly_sub_item<T: Field>(a: Seq<T::V>, index: nat) -> Seq<T::V> {
    if index < a.len() {
        poly_shl::<T>(constant::<T>(a[index as int]), index)
    } else {
        zero_poly::<T>()
    }
}

/// The sum of `a * b[j] * x^j` over the first `n` items of `b`, starting from zero.
pub open spec fn poly_mul_upto<T: Field>(a: Seq<T::V>, b: Seq<T::V>, n: nat) -> Seq<T::V>
    decreases n,
{
    if n == 0 || n > b.len() {
        zero_poly::<T>()
    } else {
        poly_add::<T>(
            poly_mul_upto::<T>(a, b, (n - 1) as nat),
            poly_shl::<T>(poly_scale::<T>(a, b[n - 1]), (n - 1) as nat),
        )
    }
}

/// The product: for each term of `b`, `a` scaled by its coefficient and
/// shifted by its degree, all summed.
pub open spec fn poly_mul<T: Field>(a: Seq<T::V>, b: Seq<T::V>) -> Seq<T::V> {
    poly_mul_upto::<T>(a, b, b.len())
}

/// Coefficient-wise conjunction of binary polynomials, the shorter operand
/// extended by zeros.
pub open spec fn poly_and(a: Seq<bool>, b: Seq<bool>) -> Seq<bool> {
    Seq::new(
        max_len(a, b),
        |i: int| coeff::<BitWrapper>(a, i) && coeff::<BitWrapper>(b, i),
    )
}

/// The sum of a list of polynomials, added from the left, starting from zero.
pub open spec fn poly_sum<T: Field>(items: Seq<Seq<T::V>>) -> Seq<T::V>
    decreases items.len(),
{
    if items.len() == 0 {
        zero_poly::<T>()
    } else {
        poly_add::<T>(poly_sum::<T>(items.drop_last()), items.last())
    }
}

/// The product of a list of polynomials, multiplied from the left, starting
/// from one.
pub open spec fn poly_product<T: Field>(items: Seq<Seq<T::V>>) -> Seq<T::V>
    decreases items.len(),
{
    if items.len() == 0 {
        one_poly::<T>()
    } else {
        poly_mul::<T>(poly_product::<T>(items.drop_last()), items.last())
    }
}

/// What one step of long division does with the quotient and remainder of
/// the dividend without its lowest term: both are shifted up, the lowest
/// coefficient `a0` joins the remainder, and if the remainder has reached the
/// order of the divisor, a multiple of the divisor is taken off it.
pub open spec fn divrem_step<T: Field>(
    q: Seq<T::V>,
    r: Seq<T::V>,
    low: Seq<T::V>,
    d: Seq<T::V>,
) -> (Seq<T::V>, Seq<T::V>) {
    let q1 = poly_shl::<T>(q, 1);
    let r1 = poly_add::<T>(poly_shl::<T>(r, 1), low);
    if order::<T>(r1) >= order::<T>(d) {
        let c = T::mul_view(T::div_view(T::one_view(), leading::<T>(d)), leading::<T>(r1));
        (
            poly_add::<T>(q1, constant::<T>(c)),
            poly_sub::<T>(r1, poly_mul::<T>(d, constant::<T>(c))),
        )
    } else {
        (q1, r1)
    }
}

/// How far the recursion of long division goes: 0 for a zero polynomial,
/// else the length of the sequence.
pub open spec fn depth<T: Field>(a: Seq<T::V>) -> nat {
    if is_zero::<T>(a) {
        0
    } else {
        a.len()
    }
}

/// Quotient and remainder of `a` by `d`, by long division from the lowest
/// term upward: a zero dividend gives zero twice; otherwise the dividend
/// without its lowest term is divided first, and [`divrem_step`] brings the
/// lowest term in.
pub open spec fn poly_divrem<T: Field>(a: Seq<T::V>, d: Seq<T::V>) -> (Seq<T::V>, Seq<T::V>)
    decreases depth::<T>(a),
{
    if is_zero::<T>(a) {
        (zero_poly::<T>(), zero_poly::<T>())
    } else {
        let rest = poly_divrem::<T>(poly_shr::<T>(a, 1), d);
        divrem_step::<T>(rest.0, rest.1, poly_sub_item::<T>(a, 0), d)
    }
}

/// 1 for a nonzero polynomial, 0 for a zero one.
pub open spec fn nonzero_flag<T: Field>(a: Seq<T::V>) -> nat {
    if is_zero::<T>(a) {
        0
    } else {
        1
    }
}

/// The coefficients `(s, t)` of the extended Euclidean algorithm, for which
/// `s * a + t * b` is a greatest common divisor of `a` and `b`: `(1, 0)` if
/// `b` is zero; otherwise, with `a = q * b + r` and `(x, y)` the coefficients
/// for `b` and `r`, the pair `(y, x - q * y)`.
pub open spec fn poly_egcd<T: FieldLaws>(a: Seq<T::V>, b: Seq<T::V>) -> (Seq<T::V>, Seq<T::V>)
    decreases order::<T>(b), nonzero_flag::<T>(b),
{
    if is_zero::<T>(b) {
        (one_poly::<T>(), zero_poly::<T>())
    } else {
        proof {
            lemma_remainder_smaller::<T>(a, b);
        }
        let qr = poly_divrem::<T>(a, b);
        let xy = poly_egcd::<T>(b, qr.1);
        (xy.1, poly_sub::<T>(xy.0, poly_mul::<T>(qr.0, xy.1)))
    }
}

} // verus!
