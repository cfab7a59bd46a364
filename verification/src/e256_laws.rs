//! The laws of the group of a curve over GF(256).
use crate::e256_closure::{lemma_multiple_on_curve, lemma_reflect, lemma_sum_on_curve};
use crate::e256_model::{
    magnitude, multiple, on_curve, point_add, point_mul, point_neg, reflect, slope,
};
use crate::ec::Point;
use crate::gf256_field::lemma_gf_div_undoes_mul;
use crate::gf256_laws::lemma_gf_distributive;
use crate::gf256_model::gf_mul;
use vstd::prelude::*;

verus! {

/// The group is closed: the sum of two points of the curve exists and is a
/// point of the curve.
pub proof fn law_sum_on_curve(a: u8, b: u8, p: Point<u8>, q: Point<u8>)
    requires
        on_curve(a, b, p),
        on_curve(a, b, q),
    ensures
        point_add(a, b, p, q) is Some,
        on_curve(a, b, point_add(a, b, p, q).unwrap()),
{
    lemma_sum_on_curve(a, b, p, q);
}

/// The identity is neutral: `p + 0 == p` and `0 + p == p` for every point of
/// the curve.
pub proof fn law_identity_is_neutral(a: u8, b: u8, p: Point<u8>)
    requires
        on_curve(a, b, p),
    ensures
        point_add(a, b, p, Point::Identity) == Some(p),
        point_add(a, b, Point::Identity, p) == Some(p),
{
}

/// A point of the curve and its inverse add to the identity, and the
/// inverse of the inverse is the point.
pub proof fn law_inverse(a: u8, b: u8, p: Point<u8>)
    requires
        on_curve(a, b, p),
    ensures
        point_neg(a, b, p) == Some(reflect(p)),
        point_add(a, b, p, reflect(p)) == Some(Point::<u8>::Identity),
        point_add(a, b, reflect(p), p) == Some(Point::<u8>::Identity),
        point_neg(a, b, reflect(p)) == Some(p),
{
    lemma_reflect(a, b, p);
    match p {
        Point::Identity => {},
        Point::Ordinary(x, y) => {
            assert((x ^ (x ^ y)) == y) by (bit_vector);
        },
    }
}

/// Addition is commutative: `p + q == q + p`, for points on the curve and
/// off it.
pub proof fn law_add_commutative(a: u8, b: u8, p: Point<u8>, q: Point<u8>)
    ensures
        point_add(a, b, p, q) == point_add(a, b, q, p),
{
    if on_curve(a, b, p) && on_curve(a, b, q) {
        match p {
            Point::Identity => {},
            Point::Ordinary(x0, y0) => match q {
                Point::Identity => {},
                Point::Ordinary(x1, y1) => {
                    assert((y0 == (x1 ^ y1)) == (y1 == (x1 ^ y0))) by (bit_vector);
                    if x0 == x1 {
                        crate::e256_closure::lemma_same_abscissa(a, b, x0, y0, y1);
                    } else {
                        let d = x0 ^ x1;
                        let n = y0 ^ y1;
                        assert(d != 0 && d == (x1 ^ x0) && n == (y1 ^ y0)) by (bit_vector)
                            requires
                                x0 != x1,
                                d == x0 ^ x1,
                                n == y0 ^ y1,
                        ;
                        let k = slope(x0, y0, x1, y1);
                        assert(k == slope(x1, y1, x0, y0));
                        lemma_gf_div_undoes_mul(n, d);
                        let kk = gf_mul(k, k);
                        let x2 = (((kk ^ k) ^ x0) ^ x1) ^ a;
                        let x2b = (((kk ^ k) ^ x1) ^ x0) ^ a;
                        assert(x2 == x2b) by (bit_vector)
                            requires
                                x2 == (((kk ^ k) ^ x0) ^ x1) ^ a,
                                x2b == (((kk ^ k) ^ x1) ^ x0) ^ a,
                        ;
                        lemma_gf_distributive(k, x0 ^ x2, x1 ^ x2);
                        let e = (x0 ^ x2) ^ (x1 ^ x2);
                        assert(e == d) by (bit_vector)
                            requires
                                e == (x0 ^ x2) ^ (x1 ^ x2),
                                d == x0 ^ x1,
                        ;
                        let m0 = gf_mul(k, x0 ^ x2);
                        let m1 = gf_mul(k, x1 ^ x2);
                        assert(((m0 ^ x2) ^ y0) == ((m1 ^ x2) ^ y1)) by (bit_vector)
                            requires
                                (m0 ^ m1) == n,
                                n == y0 ^ y1,
                        ;
                    }
                },
            },
        }
    }
}

/// Every multiple of the identity is the identity.
pub proof fn lemma_multiple_of_identity(a: u8, n: nat)
    ensures
        multiple(a, Point::<u8>::Identity, n) == Point::<u8>::Identity,
    decreases n,
{
    if n > 0 {
        lemma_multiple_of_identity(a, (n - 1) as nat);
    }
}

/// The product of a number and a point of the curve exists, and is a point
/// of the curve.
pub proof fn law_product_on_curve(a: u8, b: u8, n: int, p: Point<u8>)
    requires
        on_curve(a, b, p),
    ensures
        point_mul(a, b, n, p) is Some,
        on_curve(a, b, point_mul(a, b, n, p).unwrap()),
{
    lemma_multiple_on_curve(a, b, p, magnitude(n));
    lemma_reflect(a, b, multiple(a, p, magnitude(n)));
}

/// The product with 0 is the identity, the product with 1 is the point, and
/// every product of the identity is the identity.
pub proof fn law_mul_zero_and_one(a: u8, b: u8, n: int, p: Point<u8>)
    requires
        on_curve(a, b, p),
    ensures
        point_mul(a, b, 0, p) == Some(Point::<u8>::Identity),
        point_mul(a, b, 1, p) == Some(p),
        point_mul(a, b, n, Point::Identity) == Some(Point::<u8>::Identity),
{
    reveal_with_fuel(multiple, 2);
    lemma_multiple_of_identity(a, magnitude(n));
}

/// One more addition of the point gives the next product:
/// `n p + p == (n + 1) p` for every `n` that is not negative.
pub proof fn law_mul_next(a: u8, b: u8, n: int, p: Point<u8>)
    requires
        on_curve(a, b, p),
        0 <= n,
    ensures
        point_mul(a, b, n + 1, p) == point_add(a, b, point_mul(a, b, n, p).unwrap(), p),
{
    lemma_multiple_on_curve(a, b, p, magnitude(n));
}

/// The product with `-n` is the inverse of the product with `n`.
pub proof fn law_mul_negative(a: u8, b: u8, n: int, p: Point<u8>)
    ensures
        point_mul(a, b, -n, p) == (match point_mul(a, b, n, p) {
            Some(product) => point_neg(a, b, product),
            None => None,
        }),
{
    if on_curve(a, b, p) {
        let m = multiple(a, p, magnitude(n));
        lemma_multiple_on_curve(a, b, p, magnitude(n));
        lemma_reflect(a, b, m);
        assert(magnitude(-n) == magnitude(n));
        assert(reflect(Point::<u8>::Identity) == Point::<u8>::Identity);
    }
}

} // verus!
