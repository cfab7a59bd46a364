//! The sum of two points of a curve over GF(256) is a point of the curve.
//!
//! A line of slope `k` through the point `(x0, y0)` of the curve meets the
//! curve where a cubic in `s = x + x0` vanishes.  The cubic has the factor
//! `s`, and the other factor is a quadratic whose roots add up to
//! `k^2 + k + x0 + a`; so where one root is known, the other follows.
use crate::e256_model::{curve_equation, multiple, on_curve, point_sum, reflect, third_point};
use crate::ec::Point;
use crate::field::lemma_mul_zero;
use crate::gf256::Gf256;
use crate::gf256_field::lemma_gf_div_undoes_mul;
use crate::gf256_laws::{
    lemma_gf_distributive, lemma_gf_distributive_left, lemma_gf_mul_associative,
    lemma_gf_mul_commutative, lemma_gf_no_zero_divisors, lemma_gf_square_of_sum,
};
use crate::gf256_model::{gf_div, gf_mul};
use vstd::prelude::*;

verus! {

/// `y^2 + xy` takes the same value at `y` and at `x + y`.
proof fn lemma_left_side_reflected(x: u8, y: u8)
    ensures
        (gf_mul(x ^ y, x ^ y) ^ gf_mul(x, x ^ y)) == (gf_mul(y, y) ^ gf_mul(x, y)),
{
    lemma_gf_square_of_sum(x, y);
    lemma_gf_distributive(x, x, y);
    let xx = gf_mul(x, x);
    let xy = gf_mul(x, y);
    let yy = gf_mul(y, y);
    assert(((xx ^ yy) ^ (xx ^ xy)) == (yy ^ xy)) by (bit_vector);
}

/// The reflection of a point of the curve is on the curve, and reflecting
/// twice gives the point back.
pub proof fn lemma_reflect(a: u8, b: u8, p: Point<u8>)
    ensures
        on_curve(a, b, reflect(p)) == on_curve(a, b, p),
        reflect(reflect(p)) == p,
{
    match p {
        Point::Identity => {},
        Point::Ordinary(x, y) => {
            lemma_left_side_reflected(x, y);
            assert((x ^ (x ^ y)) == y) by (bit_vector);
        },
    }
}

/// Two points of the curve with the same abscissa are equal or reflections
/// of each other.
pub proof fn lemma_same_abscissa(a: u8, b: u8, x: u8, y0: u8, y1: u8)
    requires
        curve_equation(a, b, x, y0),
        curve_equation(a, b, x, y1),
    ensures
        y1 == y0 || y1 == (x ^ y0),
{
    let u = y0 ^ y1;
    lemma_gf_square_of_sum(y0, y1);
    lemma_gf_distributive(x, y0, y1);
    lemma_gf_mul_commutative(u, x);
    lemma_gf_distributive(u, u, x);
    let s0 = gf_mul(y0, y0);
    let s1 = gf_mul(y1, y1);
    let m0 = gf_mul(x, y0);
    let m1 = gf_mul(x, y1);
    let right = (gf_mul(gf_mul(x, x), x) ^ gf_mul(gf_mul(a, x), x)) ^ b;
    assert((s0 ^ m0) == right && (s1 ^ m1) == right ==> ((s0 ^ s1) ^ (m0 ^ m1)) == 0u8)
        by (bit_vector);
    assert(gf_mul(u, u ^ x) == 0);
    lemma_gf_no_zero_divisors(u, u ^ x);
    assert(((y0 ^ y1) == 0u8 ==> y1 == y0) && (((y0 ^ y1) ^ x) == 0u8 ==> y1 == (x ^ y0)))
        by (bit_vector);
}

/// The two sides of the equation of the curve, added: 0 exactly on the curve.
pub open spec fn defect(a: u8, b: u8, t: u8, v: u8) -> u8 {
    (gf_mul(v, v) ^ gf_mul(t, v)) ^ ((gf_mul(gf_mul(t, t), t) ^ gf_mul(gf_mul(a, t), t)) ^ b)
}

/// The sum of the two roots of the quadratic for a line of slope `k`
/// through a point of abscissa `x0`.
pub open spec fn root_sum(a: u8, k: u8, x0: u8) -> u8 {
    ((gf_mul(k, k) ^ k) ^ x0) ^ a
}

/// The constant term of that quadratic: the product of its roots.
pub open spec fn root_product(k: u8, x0: u8, y0: u8) -> u8 {
    (y0 ^ gf_mul(k, x0)) ^ gf_mul(x0, x0)
}

/// The quadratic `s^2 + c1 s + c0` at `s`.
pub open spec fn quadratic(a: u8, k: u8, x0: u8, y0: u8, s: u8) -> u8 {
    (gf_mul(s, s) ^ gf_mul(root_sum(a, k, x0), s)) ^ root_product(k, x0, y0)
}

/// A point is on the curve exactly if its defect is 0.
pub proof fn lemma_defect(a: u8, b: u8, t: u8, v: u8)
    ensures
        curve_equation(a, b, t, v) <==> defect(a, b, t, v) == 0,
{
    let left = gf_mul(v, v) ^ gf_mul(t, v);
    let right = (gf_mul(gf_mul(t, t), t) ^ gf_mul(gf_mul(a, t), t)) ^ b;
    assert((left == right) <==> (left ^ right) == 0u8) by (bit_vector);
}

/// `(k s)(k s) == s ((k k) s)`.
proof fn lemma_square_of_product(k: u8, s: u8)
    ensures
        gf_mul(gf_mul(k, s), gf_mul(k, s)) == gf_mul(s, gf_mul(gf_mul(k, k), s)),
{
    let ks = gf_mul(k, s);
    lemma_gf_mul_associative(k, k, s);
    lemma_gf_mul_associative(s, k, ks);
    lemma_gf_mul_commutative(s, k);
}

/// `x (k s) == s (k x)`.
proof fn lemma_swap_outer(x: u8, k: u8, s: u8)
    ensures
        gf_mul(x, gf_mul(k, s)) == gf_mul(s, gf_mul(k, x)),
{
    lemma_gf_mul_associative(x, k, s);
    lemma_gf_mul_commutative(gf_mul(x, k), s);
    lemma_gf_mul_commutative(x, k);
}

/// `(s s) x == s (x s)` and `a (s s) == s (a s)`.
proof fn lemma_square_times(s: u8, x: u8)
    ensures
        gf_mul(gf_mul(s, s), x) == gf_mul(s, gf_mul(x, s)),
        gf_mul(x, gf_mul(s, s)) == gf_mul(s, gf_mul(x, s)),
{
    lemma_gf_mul_associative(s, s, x);
    lemma_gf_mul_commutative(s, x);
    lemma_gf_mul_commutative(x, gf_mul(s, s));
}

/// The product of `s` and a sum of four.
proof fn lemma_distribute_four(s: u8, p: u8, q: u8, r: u8, t: u8)
    ensures
        gf_mul(s, ((p ^ q) ^ r) ^ t) == ((gf_mul(s, p) ^ gf_mul(s, q)) ^ gf_mul(s, r)) ^ gf_mul(
            s,
            t,
        ),
{
    lemma_gf_distributive(s, (p ^ q) ^ r, t);
    lemma_gf_distributive(s, p ^ q, r);
    lemma_gf_distributive(s, p, q);
}

/// The sum of four, times `s`.
proof fn lemma_distribute_four_left(p: u8, q: u8, r: u8, t: u8, s: u8)
    ensures
        gf_mul(((p ^ q) ^ r) ^ t, s) == ((gf_mul(p, s) ^ gf_mul(q, s)) ^ gf_mul(r, s)) ^ gf_mul(
            t,
            s,
        ),
{
    lemma_gf_distributive_left((p ^ q) ^ r, t, s);
    lemma_gf_distributive_left(p ^ q, r, s);
    lemma_gf_distributive_left(p, q, s);
}

/// The defect along a line through `(x0, y0)`: at the abscissa `s + x0` and
/// the ordinate `k s + y0` it is `s` times the quadratic, plus the defect of
/// `(x0, y0)` itself.
pub proof fn lemma_defect_on_line(a: u8, b: u8, k: u8, x0: u8, y0: u8, s: u8)
    ensures
        defect(a, b, s ^ x0, gf_mul(k, s) ^ y0) == gf_mul(s, quadratic(a, k, x0, y0, s)) ^ defect(
            a,
            b,
            x0,
            y0,
        ),
{
    let ks = gf_mul(k, s);
    let t = s ^ x0;
    let v = ks ^ y0;
    let ss = gf_mul(s, s);
    let xx = gf_mul(x0, x0);
    let kk = gf_mul(k, k);
    // the monomials
    let m1 = gf_mul(ks, ks);
    let m2 = gf_mul(y0, y0);
    let m3 = gf_mul(s, ks);
    let m4 = gf_mul(s, y0);
    let m5 = gf_mul(x0, ks);
    let m6 = gf_mul(x0, y0);
    let m7 = gf_mul(ss, s);
    let m8 = gf_mul(ss, x0);
    let m9 = gf_mul(xx, s);
    let m10 = gf_mul(xx, x0);
    let m11 = gf_mul(a, ss);
    let m12 = gf_mul(a, xx);
    // the left side
    let vv = gf_mul(v, v);
    let tv = gf_mul(t, v);
    let tt = gf_mul(t, t);
    let ttt = gf_mul(tt, t);
    let att = gf_mul(gf_mul(a, t), t);
    assert(vv == m1 ^ m2) by {
        lemma_gf_square_of_sum(ks, y0);
    }
    assert(tv == (m3 ^ m4) ^ (m5 ^ m6)) by {
        lemma_gf_distributive_left(s, x0, v);
        lemma_gf_distributive(s, ks, y0);
        lemma_gf_distributive(x0, ks, y0);
    }
    assert(tt == ss ^ xx) by {
        lemma_gf_square_of_sum(s, x0);
    }
    assert(ttt == (m7 ^ m8) ^ (m9 ^ m10)) by {
        lemma_gf_distributive_left(ss, xx, t);
        lemma_gf_distributive(ss, s, x0);
        lemma_gf_distributive(xx, s, x0);
    }
    assert(att == m11 ^ m12) by {
        lemma_gf_mul_associative(a, t, t);
        lemma_gf_distributive(a, ss, xx);
    }
    // the right side
    let c1 = root_sum(a, k, x0);
    let c0 = root_product(k, x0, y0);
    let c1s = gf_mul(c1, s);
    let h = quadratic(a, k, x0, y0, s);
    let n1 = gf_mul(s, gf_mul(kk, s));
    let n5 = gf_mul(s, gf_mul(k, x0));
    let n7 = gf_mul(s, ss);
    let n8 = gf_mul(s, gf_mul(x0, s));
    let n9 = gf_mul(s, xx);
    let n11 = gf_mul(s, gf_mul(a, s));
    let n12 = gf_mul(gf_mul(a, x0), x0);
    assert(c1s == ((gf_mul(kk, s) ^ ks) ^ gf_mul(x0, s)) ^ gf_mul(a, s)) by {
        lemma_distribute_four_left(kk, k, x0, a, s);
    }
    assert(gf_mul(s, c1s) == ((n1 ^ m3) ^ n8) ^ n11) by {
        lemma_distribute_four(s, gf_mul(kk, s), ks, gf_mul(x0, s), gf_mul(a, s));
    }
    assert(gf_mul(s, c0) == (m4 ^ n5) ^ n9) by {
        lemma_gf_distributive(s, y0 ^ gf_mul(k, x0), xx);
        lemma_gf_distributive(s, y0, gf_mul(k, x0));
    }
    assert(gf_mul(s, h) == (n7 ^ (((n1 ^ m3) ^ n8) ^ n11)) ^ ((m4 ^ n5) ^ n9)) by {
        lemma_gf_distributive(s, ss ^ c1s, c0);
        lemma_gf_distributive(s, ss, c1s);
    }
    // the monomials of the two sides are the same
    assert(m1 == n1) by {
        lemma_square_of_product(k, s);
    }
    assert(m5 == n5) by {
        lemma_swap_outer(x0, k, s);
    }
    assert(m7 == n7) by {
        lemma_gf_mul_commutative(ss, s);
    }
    assert(m8 == n8) by {
        lemma_square_times(s, x0);
    }
    assert(m9 == n9) by {
        lemma_gf_mul_commutative(xx, s);
    }
    assert(m11 == n11) by {
        lemma_square_times(s, a);
    }
    assert(m12 == n12) by {
        lemma_gf_mul_associative(a, x0, x0);
    }
    let left = (vv ^ tv) ^ ((ttt ^ att) ^ b);
    let sh = gf_mul(s, h);
    let base = (m2 ^ m6) ^ ((m10 ^ m12) ^ b);
    assert(left == sh ^ base) by (bit_vector)
        requires
            left == (vv ^ tv) ^ ((ttt ^ att) ^ b),
            vv == m1 ^ m2,
            tv == (m3 ^ m4) ^ (m5 ^ m6),
            ttt == (m7 ^ m8) ^ (m9 ^ m10),
            att == m11 ^ m12,
            sh == (m7 ^ (((m1 ^ m3) ^ m8) ^ m11)) ^ ((m4 ^ m5) ^ m9),
            base == (m2 ^ m6) ^ ((m10 ^ m12) ^ b),
    ;
}

/// Where the quadratic has the root `s1`, its other root is the sum of the
/// roots less `s1`.
proof fn lemma_other_root(a: u8, k: u8, x0: u8, y0: u8, s1: u8)
    requires
        quadratic(a, k, x0, y0, s1) == 0,
    ensures
        quadratic(a, k, x0, y0, root_sum(a, k, x0) ^ s1) == 0,
{
    let c1 = root_sum(a, k, x0);
    let c0 = root_product(k, x0, y0);
    let s2 = c1 ^ s1;
    // c0 == s1 s1 + c1 s1 == s1 s2, and s2 s2 + c1 s2 == s1 s2
    let a1 = gf_mul(s1, s1);
    let b1 = gf_mul(c1, s1);
    let a2 = gf_mul(s2, s2);
    let b2 = gf_mul(c1, s2);
    lemma_gf_distributive_left(c1, s1, s1);
    lemma_gf_distributive_left(c1, s1, s2);
    lemma_gf_mul_commutative(s1, s2);
    let p12 = gf_mul(s2, s1);
    let q12 = gf_mul(s1, s2);
    assert(((a2 ^ b2) ^ c0) == 0u8) by (bit_vector)
        requires
            ((a1 ^ b1) ^ c0) == 0u8,
            p12 == b1 ^ a1,
            a2 == b2 ^ q12,
            p12 == q12,
    ;
}

/// The point that a line through two points of the curve leads to is on the
/// curve: the line has the slope `k`, it passes through `(x0, y0)`, and the
/// quadratic of the line has the root `x0 + x1`.
pub proof fn lemma_third_point(a: u8, b: u8, k: u8, x0: u8, y0: u8, x1: u8)
    requires
        curve_equation(a, b, x0, y0),
        quadratic(a, k, x0, y0, x0 ^ x1) == 0,
    ensures
        on_curve(a, b, third_point(a, k, x0, y0, x1)),
{
    let s1 = x0 ^ x1;
    let c1 = root_sum(a, k, x0);
    let s2 = c1 ^ s1;
    let x2 = (((gf_mul(k, k) ^ k) ^ x0) ^ x1) ^ a;
    let kk = gf_mul(k, k);
    assert(x2 == (s2 ^ x0) && (x0 ^ x2) == s2) by (bit_vector)
        requires
            s2 == ((((kk ^ k) ^ x0) ^ a) ^ (x0 ^ x1)),
            x2 == ((((kk ^ k) ^ x0) ^ x1) ^ a),
    ;
    lemma_other_root(a, k, x0, y0, s1);
    lemma_defect_on_line(a, b, k, x0, y0, s2);
    lemma_defect(a, b, x0, y0);
    lemma_mul_zero::<Gf256>(s2);
    let l2 = gf_mul(k, s2) ^ y0;
    assert(defect(a, b, x2, l2) == 0) by {
        assert((0u8 ^ 0u8) == 0u8) by (bit_vector);
    }
    lemma_defect(a, b, x2, l2);
    lemma_reflect(a, b, Point::Ordinary(x2, l2));
    let m = gf_mul(k, s2);
    let y2 = (m ^ x2) ^ y0;
    assert(y2 == (x2 ^ l2)) by (bit_vector)
        requires
            y2 == (m ^ x2) ^ y0,
            l2 == m ^ y0,
    ;
}

/// The sum of two points of the curve, by the tangent or by the chord, is a
/// point of the curve.
pub proof fn lemma_sum_on_curve(a: u8, b: u8, p: Point<u8>, q: Point<u8>)
    requires
        on_curve(a, b, p),
        on_curve(a, b, q),
    ensures
        on_curve(a, b, point_sum(a, p, q)),
{
    match p {
        Point::Identity => {},
        Point::Ordinary(x0, y0) => match q {
            Point::Identity => {},
            Point::Ordinary(x1, y1) => {
                if x0 == x1 && y0 == (x1 ^ y1) {
                } else if x0 == x1 && y0 == y1 {
                    // the tangent: k x0 == x0 x0 + y0, and the quadratic has the root 0
                    assert(x0 != 0) by {
                        assert(x0 == 0 ==> y0 == (x0 ^ y0)) by (bit_vector);
                    }
                    let t = gf_div(y0, x0);
                    let k = x0 ^ t;
                    lemma_gf_div_undoes_mul(y0, x0);
                    lemma_gf_distributive_left(x0, t, x0);
                    let kx = gf_mul(k, x0);
                    let xx = gf_mul(x0, x0);
                    let c1 = root_sum(a, k, x0);
                    lemma_mul_zero::<Gf256>(c1);
                    lemma_mul_zero::<Gf256>(0u8);
                    let c0 = root_product(k, x0, y0);
                    assert((x0 ^ x0) == 0u8 && c0 == 0u8 && ((0u8 ^ 0u8) ^ c0) == 0u8)
                        by (bit_vector)
                        requires
                            kx == xx ^ y0,
                            c0 == (y0 ^ kx) ^ xx,
                    ;
                    lemma_third_point(a, b, k, x0, y0, x1);
                } else {
                    if x0 == x1 {
                        lemma_same_abscissa(a, b, x0, y1, y0);
                    }
                    // the chord: k (x0 + x1) == y0 + y1
                    let s1 = x0 ^ x1;
                    let n = y0 ^ y1;
                    assert(s1 != 0) by (bit_vector)
                        requires
                            x0 != x1,
                            s1 == x0 ^ x1,
                    ;
                    let k = gf_div(n, s1);
                    lemma_gf_div_undoes_mul(n, s1);
                    let ks = gf_mul(k, s1);
                    assert((s1 ^ x0) == x1 && (ks ^ y0) == y1) by (bit_vector)
                        requires
                            s1 == x0 ^ x1,
                            ks == y0 ^ y1,
                    ;
                    lemma_defect_on_line(a, b, k, x0, y0, s1);
                    lemma_defect(a, b, x0, y0);
                    lemma_defect(a, b, x1, y1);
                    let h = quadratic(a, k, x0, y0, s1);
                    let sh = gf_mul(s1, h);
                    assert(sh == 0u8) by (bit_vector)
                        requires
                            0u8 == sh ^ 0u8,
                    ;
                    lemma_gf_no_zero_divisors(s1, h);
                    lemma_third_point(a, b, k, x0, y0, x1);
                }
            },
        },
    }
}

/// Every multiple of a point of the curve is on the curve.
pub proof fn lemma_multiple_on_curve(a: u8, b: u8, p: Point<u8>, n: nat)
    requires
        on_curve(a, b, p),
    ensures
        on_curve(a, b, multiple(a, p, n)),
    decreases n,
{
    if n > 0 {
        lemma_multiple_on_curve(a, b, p, (n - 1) as nat);
        lemma_sum_on_curve(a, b, multiple(a, p, (n - 1) as nat), p);
    }
}

} // verus!
