//! What the extended Euclidean algorithm computes: coefficients that
//! combine its two operands to a common divisor of both.
use crate::field::FieldLaws;
use crate::poly_coeff::{lemma_coeff_add, lemma_same_add, lemma_same_mul};
use crate::poly_congruence::lemma_same_divrem;
use crate::poly_laws::{
    lemma_add_comm, lemma_add_zero, lemma_mul_assoc, lemma_mul_comm, lemma_mul_distrib,
    lemma_mul_distrib_left, lemma_mul_one, lemma_mul_zero_poly, lemma_sub_add,
};
use crate::poly_model::{
    coeff, is_zero, nonzero_flag, one_poly, order, poly_add, poly_divrem, poly_egcd, poly_mul,
    poly_sub, same_poly, zero_poly,
};
use crate::poly_order::lemma_remainder_smaller;
use crate::poly_remainder::{lemma_division_identity, lemma_remainder_add_multiple};
use vstd::prelude::*;

verus! {

/// The last nonzero remainder of the Euclidean algorithm on `a` and `b`: a
/// greatest common divisor of the two.
pub open spec fn poly_gcd<T: FieldLaws>(a: Seq<T::V>, b: Seq<T::V>) -> Seq<T::V>
    decreases order::<T>(b), nonzero_flag::<T>(b),
{
    if is_zero::<T>(b) {
        a
    } else {
        proof {
            lemma_remainder_smaller::<T>(a, b);
        }
        poly_gcd::<T>(b, poly_divrem::<T>(a, b).1)
    }
}

/// `x` is a multiple of `g`.
pub open spec fn divides<T: FieldLaws>(g: Seq<T::V>, x: Seq<T::V>) -> bool {
    exists|m: Seq<T::V>| same_poly::<T>(x, #[trigger] poly_mul::<T>(g, m))
}

/// `y * (b * q) = (q * y) * b`.
proof fn lemma_rotate<T: FieldLaws>(y: Seq<T::V>, b: Seq<T::V>, q: Seq<T::V>)
    ensures
        same_poly::<T>(
            poly_mul::<T>(y, poly_mul::<T>(b, q)),
            poly_mul::<T>(poly_mul::<T>(q, y), b),
        ),
{
    let yb = poly_mul::<T>(y, b);
    lemma_mul_assoc::<T>(y, b, q);
    lemma_mul_assoc::<T>(q, y, b);
    lemma_mul_comm::<T>(q, yb);
}

/// Bézout's identity: the coefficients `(s, t)` of the extended Euclidean
/// algorithm satisfy `s * a + t * b = gcd(a, b)`.
pub proof fn lemma_bezout<T: FieldLaws>(a: Seq<T::V>, b: Seq<T::V>)
    ensures
        same_poly::<T>(
            poly_add::<T>(
                poly_mul::<T>(poly_egcd::<T>(a, b).0, a),
                poly_mul::<T>(poly_egcd::<T>(a, b).1, b),
            ),
            poly_gcd::<T>(a, b),
        ),
    decreases order::<T>(b), nonzero_flag::<T>(b),
{
    if is_zero::<T>(b) {
        let one = one_poly::<T>();
        let zero = zero_poly::<T>();
        lemma_mul_one::<T>(a);
        lemma_mul_comm::<T>(one, a);
        lemma_mul_zero_poly::<T>(b, zero);
        lemma_add_zero::<T>(poly_mul::<T>(one, a), poly_mul::<T>(zero, b));
    } else {
        lemma_remainder_smaller::<T>(a, b);
        let q = poly_divrem::<T>(a, b).0;
        let r = poly_divrem::<T>(a, b).1;
        let x = poly_egcd::<T>(b, r).0;
        let y = poly_egcd::<T>(b, r).1;
        let g = poly_gcd::<T>(b, r);
        lemma_bezout::<T>(b, r);
        lemma_division_identity::<T>(a, b);
        let qy = poly_mul::<T>(q, y);
        let w = poly_sub::<T>(x, qy);
        let bq = poly_mul::<T>(b, q);
        // y * a = y * (b * q) + y * r
        lemma_same_mul::<T>(y, y, a, poly_add::<T>(bq, r));
        lemma_mul_distrib::<T>(y, bq, r);
        // x * b = w * b + (q * y) * b
        lemma_sub_add::<T>(x, qy);
        lemma_same_mul::<T>(poly_add::<T>(w, qy), x, b, b);
        lemma_mul_distrib_left::<T>(w, qy, b);
        lemma_rotate::<T>(y, b, q);
        let ya = poly_mul::<T>(y, a);
        let wb = poly_mul::<T>(w, b);
        let yr = poly_mul::<T>(y, r);
        let xb = poly_mul::<T>(x, b);
        let u1 = poly_mul::<T>(y, bq);
        let u2 = poly_mul::<T>(qy, b);
        assert forall|k: int|
            coeff::<T>(poly_add::<T>(ya, wb), k) == coeff::<T>(g, k) by {
            lemma_coeff_add::<T>(ya, wb, k);
            assert(coeff::<T>(ya, k) == coeff::<T>(poly_add::<T>(u1, yr), k));
            lemma_coeff_add::<T>(u1, yr, k);
            assert(coeff::<T>(g, k) == coeff::<T>(poly_add::<T>(xb, yr), k));
            lemma_coeff_add::<T>(xb, yr, k);
            assert(coeff::<T>(xb, k) == coeff::<T>(poly_add::<T>(wb, u2), k));
            lemma_coeff_add::<T>(wb, u2, k);
            assert(coeff::<T>(u1, k) == coeff::<T>(u2, k));
            let cu = coeff::<T>(u1, k);
            let cv = coeff::<T>(yr, k);
            let cw = coeff::<T>(wb, k);
            // (cu + cv) + cw == (cw + cu) + cv
            T::add_associative(cu, cv, cw);
            T::add_commutative(cv, cw);
            T::add_associative(cu, cw, cv);
            T::add_commutative(cu, cw);
        }
    }
}

/// The greatest common divisor divides both operands.
pub proof fn lemma_gcd_divides<T: FieldLaws>(a: Seq<T::V>, b: Seq<T::V>)
    ensures
        divides::<T>(poly_gcd::<T>(a, b), a),
        divides::<T>(poly_gcd::<T>(a, b), b),
    decreases order::<T>(b), nonzero_flag::<T>(b),
{
    if is_zero::<T>(b) {
        let one = one_poly::<T>();
        let zero = zero_poly::<T>();
        lemma_mul_one::<T>(a);
        assert(same_poly::<T>(a, poly_mul::<T>(a, one)));
        lemma_mul_zero_poly::<T>(a, zero);
        assert forall|i: int| coeff::<T>(b, i) == coeff::<T>(poly_mul::<T>(a, zero), i) by {
        }
        assert(same_poly::<T>(b, poly_mul::<T>(a, zero)));
    } else {
        lemma_remainder_smaller::<T>(a, b);
        let q = poly_divrem::<T>(a, b).0;
        let r = poly_divrem::<T>(a, b).1;
        let g = poly_gcd::<T>(b, r);
        lemma_gcd_divides::<T>(b, r);
        let m1 = choose|m: Seq<T::V>| same_poly::<T>(b, #[trigger] poly_mul::<T>(g, m));
        let m2 = choose|m: Seq<T::V>| same_poly::<T>(r, #[trigger] poly_mul::<T>(g, m));
        lemma_division_identity::<T>(a, b);
        // a = b * q + r = (g * m1) * q + g * m2 = g * (m1 * q) + g * m2 = g * (m1 * q + m2)
        let gm1 = poly_mul::<T>(g, m1);
        let gm2 = poly_mul::<T>(g, m2);
        let m1q = poly_mul::<T>(m1, q);
        lemma_same_mul::<T>(b, gm1, q, q);
        lemma_mul_assoc::<T>(g, m1, q);
        lemma_same_add::<T>(poly_mul::<T>(b, q), poly_mul::<T>(g, m1q), r, gm2);
        lemma_mul_distrib::<T>(g, m1q, m2);
        let m = poly_add::<T>(m1q, m2);
        assert(same_poly::<T>(a, poly_mul::<T>(g, m)));
    }
}

/// Where `a` and `m` have no common divisor but one, the first coefficient
/// of the extended Euclidean algorithm is the inverse of `a` modulo `m`:
/// its product with `a` leaves the remainder that one leaves.
pub proof fn law_modular_inverse<T: FieldLaws>(a: Seq<T::V>, m: Seq<T::V>)
    requires
        !is_zero::<T>(m),
        same_poly::<T>(poly_gcd::<T>(a, m), one_poly::<T>()),
    ensures
        same_poly::<T>(
            poly_divrem::<T>(poly_mul::<T>(poly_egcd::<T>(a, m).0, a), m).1,
            poly_divrem::<T>(one_poly::<T>(), m).1,
        ),
{
    let s = poly_egcd::<T>(a, m).0;
    let t = poly_egcd::<T>(a, m).1;
    let one = one_poly::<T>();
    lemma_bezout::<T>(a, m);
    let sa = poly_mul::<T>(s, a);
    let tm = poly_mul::<T>(t, m);
    let mt = poly_mul::<T>(m, t);
    // m * t + s * a = one
    lemma_add_comm::<T>(sa, tm);
    lemma_mul_comm::<T>(t, m);
    lemma_same_add::<T>(tm, mt, sa, sa);
    let shifted = poly_add::<T>(mt, sa);
    assert(same_poly::<T>(shifted, one));
    lemma_same_divrem::<T>(shifted, one, m, m);
    lemma_remainder_add_multiple::<T>(sa, t, m);
}

} // verus!
