//! GF(256) is a field: the primitive polynomial has no factors of lower
//! degree, so every nonzero byte has an inverse, and the extended Euclidean
//! algorithm finds it.
use crate::bit_wrapper::{bits_of, BitWrapper};
use crate::field::{lemma_div_self, Field, FieldLaws};
use crate::gf256::Gf256;
use crate::gf256_laws::{
    lemma_gf_mul, lemma_reduce_bits, lemma_reduce_mul_left, lemma_reduce_same, residue,
};
use crate::gf256_model::{
    byte_bits, byte_value, gf_div, gf_mul, inverse_bits, lemma_bits_of_byte, lemma_byte_round_trip,
    lemma_byte_zero, lemma_primitive, lemma_same_byte, primitive_bits, reduce,
};
use crate::poly_coeff::{
    conv, lemma_coeff_mul, lemma_same_is_zero, lemma_same_mul, lemma_same_order,
};
use crate::poly_euclid::{law_modular_inverse, lemma_gcd_divides, poly_gcd};
use crate::poly_laws::{lemma_mul_assoc, lemma_mul_comm, lemma_mul_one, lemma_mul_zero_poly};
use crate::poly_model::{below, coeff, is_zero, one_poly, order, poly_egcd, poly_mul, same_poly};
use crate::poly_order::{lemma_order, lemma_order_below};
use crate::poly_remainder::{
    lemma_above_order, lemma_mul_order, lemma_remainder_mul, lemma_remainder_of_small,
};
use crate::sums::sum;
use vstd::prelude::*;

verus! {

/// No binary polynomial of degree up to four and one of degree up to seven
/// have the primitive polynomial as their product: if the coefficients of
/// their product from degree one on are those of the primitive polynomial,
/// the constant term of the product is not.
proof fn lemma_no_small_factors(
    u0: bool,
    u1: bool,
    u2: bool,
    u3: bool,
    u4: bool,
    v0: bool,
    v1: bool,
    v2: bool,
    v3: bool,
    v4: bool,
    v5: bool,
    v6: bool,
    v7: bool,
)
    by (bit_vector)
    requires
        ((u1 && v0) != (u0 && v1)) == false,
        (((u2 && v0) != (u1 && v1)) != (u0 && v2)) == true,
        ((((u3 && v0) != (u2 && v1)) != (u1 && v2)) != (u0 && v3)) == true,
        (((((u4 && v0) != (u3 && v1)) != (u2 && v2)) != (u1 && v3)) != (u0 && v4)) == true,
        (((((u4 && v1) != (u3 && v2)) != (u2 && v3)) != (u1 && v4)) != (u0 && v5)) == false,
        (((((u4 && v2) != (u3 && v3)) != (u2 && v4)) != (u1 && v5)) != (u0 && v6)) == false,
        (((((u4 && v3) != (u3 && v4)) != (u2 && v5)) != (u1 && v6)) != (u0 && v7)) == false,
        ((((u4 && v4) != (u3 && v5)) != (u2 && v6)) != (u1 && v7)) == true,
        (((u4 && v5) != (u3 && v6)) != (u2 && v7)) == false,
        ((u4 && v6) != (u3 && v7)) == false,
        (u4 && v7) == false,
    ensures
        !(u0 && v0),
{
}

/// Above its order a binary polynomial has no coefficient that is set.
proof fn lemma_high_bits(u: Seq<bool>, v: Seq<bool>)
    requires
        order::<BitWrapper>(u) <= 4,
        order::<BitWrapper>(v) <= 7,
    ensures
        forall|i: int| 5 <= i ==> !#[trigger] coeff::<BitWrapper>(u, i),
        forall|i: int| 8 <= i ==> !#[trigger] coeff::<BitWrapper>(v, i),
{
    assert forall|i: int| 5 <= i implies !#[trigger] coeff::<BitWrapper>(u, i) by {
        lemma_above_order::<BitWrapper>(u, i);
    }
    assert forall|i: int| 8 <= i implies !#[trigger] coeff::<BitWrapper>(v, i) by {
        lemma_above_order::<BitWrapper>(v, i);
    }
}

/// The constant term of a product of a polynomial of order up to four and
/// one of order up to seven that agrees with the primitive polynomial from
/// degree one on.
proof fn lemma_small_factors(u: Seq<bool>, v: Seq<bool>)
    requires
        order::<BitWrapper>(u) <= 4,
        order::<BitWrapper>(v) <= 7,
        forall|k: int|
            1 <= k ==> coeff::<BitWrapper>(poly_mul::<BitWrapper>(u, v), k) == coeff::<BitWrapper>(
                primitive_bits(),
                k,
            ),
    ensures
        !coeff::<BitWrapper>(poly_mul::<BitWrapper>(u, v), 0),
{
    let product = poly_mul::<BitWrapper>(u, v);
    let u0 = coeff::<BitWrapper>(u, 0);
    let u1 = coeff::<BitWrapper>(u, 1);
    let u2 = coeff::<BitWrapper>(u, 2);
    let u3 = coeff::<BitWrapper>(u, 3);
    let u4 = coeff::<BitWrapper>(u, 4);
    let v0 = coeff::<BitWrapper>(v, 0);
    let v1 = coeff::<BitWrapper>(v, 1);
    let v2 = coeff::<BitWrapper>(v, 2);
    let v3 = coeff::<BitWrapper>(v, 3);
    let v4 = coeff::<BitWrapper>(v, 4);
    let v5 = coeff::<BitWrapper>(v, 5);
    let v6 = coeff::<BitWrapper>(v, 6);
    let v7 = coeff::<BitWrapper>(v, 7);
    assert(conv::<BitWrapper>(u, v, 0) == (u0 && v0)) by {
        reveal_with_fuel(sum, 13);
        lemma_high_bits(u, v);
    }
    lemma_coeff_mul::<BitWrapper>(u, v, 0);
    assert(conv::<BitWrapper>(u, v, 1) == ((u1 && v0) != (u0 && v1))) by {
        reveal_with_fuel(sum, 13);
        lemma_high_bits(u, v);
    }
    lemma_coeff_mul::<BitWrapper>(u, v, 1);
    assert(coeff::<BitWrapper>(product, 1) == coeff::<BitWrapper>(primitive_bits(), 1));
    assert(conv::<BitWrapper>(u, v, 2) == (((u2 && v0) != (u1 && v1)) != (u0 && v2))) by {
        reveal_with_fuel(sum, 13);
        lemma_high_bits(u, v);
    }
    lemma_coeff_mul::<BitWrapper>(u, v, 2);
    assert(coeff::<BitWrapper>(product, 2) == coeff::<BitWrapper>(primitive_bits(), 2));
    assert(conv::<BitWrapper>(u, v, 3) == ((((u3 && v0) != (u2 && v1)) != (u1 && v2)) !=
        (u0 && v3))) by {
        reveal_with_fuel(sum, 13);
        lemma_high_bits(u, v);
    }
    lemma_coeff_mul::<BitWrapper>(u, v, 3);
    assert(coeff::<BitWrapper>(product, 3) == coeff::<BitWrapper>(primitive_bits(), 3));
    assert(conv::<BitWrapper>(u, v, 4) == (((((u4 && v0) != (u3 && v1)) != (u2 && v2)) !=
        (u1 && v3)) != (u0 && v4))) by {
        reveal_with_fuel(sum, 13);
        lemma_high_bits(u, v);
    }
    lemma_coeff_mul::<BitWrapper>(u, v, 4);
    assert(coeff::<BitWrapper>(product, 4) == coeff::<BitWrapper>(primitive_bits(), 4));
    assert(conv::<BitWrapper>(u, v, 5) == (((((u4 && v1) != (u3 && v2)) != (u2 && v3)) !=
        (u1 && v4)) != (u0 && v5))) by {
        reveal_with_fuel(sum, 13);
        lemma_high_bits(u, v);
    }
    lemma_coeff_mul::<BitWrapper>(u, v, 5);
    assert(coeff::<BitWrapper>(product, 5) == coeff::<BitWrapper>(primitive_bits(), 5));
    assert(conv::<BitWrapper>(u, v, 6) == (((((u4 && v2) != (u3 && v3)) != (u2 && v4)) !=
        (u1 && v5)) != (u0 && v6))) by {
        reveal_with_fuel(sum, 13);
        lemma_high_bits(u, v);
    }
    lemma_coeff_mul::<BitWrapper>(u, v, 6);
    assert(coeff::<BitWrapper>(product, 6) == coeff::<BitWrapper>(primitive_bits(), 6));
    assert(conv::<BitWrapper>(u, v, 7) == (((((u4 && v3) != (u3 && v4)) != (u2 && v5)) !=
        (u1 && v6)) != (u0 && v7))) by {
        reveal_with_fuel(sum, 13);
        lemma_high_bits(u, v);
    }
    lemma_coeff_mul::<BitWrapper>(u, v, 7);
    assert(coeff::<BitWrapper>(product, 7) == coeff::<BitWrapper>(primitive_bits(), 7));
    assert(conv::<BitWrapper>(u, v, 8) == ((((u4 && v4) != (u3 && v5)) != (u2 && v6)) !=
        (u1 && v7))) by {
        reveal_with_fuel(sum, 13);
        lemma_high_bits(u, v);
    }
    lemma_coeff_mul::<BitWrapper>(u, v, 8);
    assert(coeff::<BitWrapper>(product, 8) == coeff::<BitWrapper>(primitive_bits(), 8));
    assert(conv::<BitWrapper>(u, v, 9) == (((u4 && v5) != (u3 && v6)) != (u2 && v7))) by {
        reveal_with_fuel(sum, 13);
        lemma_high_bits(u, v);
    }
    lemma_coeff_mul::<BitWrapper>(u, v, 9);
    assert(coeff::<BitWrapper>(product, 9) == coeff::<BitWrapper>(primitive_bits(), 9));
    assert(conv::<BitWrapper>(u, v, 10) == ((u4 && v6) != (u3 && v7))) by {
        reveal_with_fuel(sum, 13);
        lemma_high_bits(u, v);
    }
    lemma_coeff_mul::<BitWrapper>(u, v, 10);
    assert(coeff::<BitWrapper>(product, 10) == coeff::<BitWrapper>(primitive_bits(), 10));
    assert(conv::<BitWrapper>(u, v, 11) == (u4 && v7)) by {
        reveal_with_fuel(sum, 13);
        lemma_high_bits(u, v);
    }
    lemma_coeff_mul::<BitWrapper>(u, v, 11);
    assert(coeff::<BitWrapper>(product, 11) == coeff::<BitWrapper>(primitive_bits(), 11));
    lemma_no_small_factors(u0, u1, u2, u3, u4, v0, v1, v2, v3, v4, v5, v6, v7);
}

/// Of two polynomials whose product is the primitive polynomial, the one is
/// of an order above seven if the other is of an order up to four.
proof fn lemma_large_factor(u: Seq<bool>, v: Seq<bool>)
    requires
        order::<BitWrapper>(u) <= 4,
        same_poly::<BitWrapper>(poly_mul::<BitWrapper>(u, v), primitive_bits()),
    ensures
        order::<BitWrapper>(v) > 7,
{
    if order::<BitWrapper>(v) <= 7 {
        lemma_small_factors(u, v);
    }
}

/// A nonzero polynomial of order 0 over GF(2) is the polynomial one.
proof fn lemma_unit(g: Seq<bool>)
    requires
        !is_zero::<BitWrapper>(g),
        order::<BitWrapper>(g) == 0,
    ensures
        same_poly::<BitWrapper>(g, one_poly::<BitWrapper>()),
{
    lemma_order::<BitWrapper>(g);
    assert forall|i: int|
        coeff::<BitWrapper>(g, i) == coeff::<BitWrapper>(one_poly::<BitWrapper>(), i) by {
        if i > 0 {
            lemma_above_order::<BitWrapper>(g, i);
        }
    }
}

/// A nonzero byte and the primitive polynomial have no common divisor but one.
pub proof fn lemma_coprime(a: u8)
    requires
        a != 0,
    ensures
        same_poly::<BitWrapper>(
            poly_gcd::<BitWrapper>(byte_bits(a), primitive_bits()),
            one_poly::<BitWrapper>(),
        ),
{
    let pa = byte_bits(a);
    let p = primitive_bits();
    let g = poly_gcd::<BitWrapper>(pa, p);
    lemma_primitive();
    lemma_byte_round_trip(a);
    lemma_byte_zero(pa);
    lemma_order_below::<BitWrapper>(pa, 8);
    lemma_gcd_divides::<BitWrapper>(pa, p);
    let m1 = choose|m: Seq<bool>|
        same_poly::<BitWrapper>(pa, #[trigger] poly_mul::<BitWrapper>(g, m));
    let m2 = choose|m: Seq<bool>|
        same_poly::<BitWrapper>(p, #[trigger] poly_mul::<BitWrapper>(g, m));
    // neither g nor the cofactors are zero
    if is_zero::<BitWrapper>(g) {
        lemma_mul_zero_poly::<BitWrapper>(m1, g);
        lemma_same_is_zero::<BitWrapper>(pa, poly_mul::<BitWrapper>(g, m1));
    }
    if is_zero::<BitWrapper>(m1) {
        lemma_mul_zero_poly::<BitWrapper>(g, m1);
        lemma_same_is_zero::<BitWrapper>(pa, poly_mul::<BitWrapper>(g, m1));
    }
    if is_zero::<BitWrapper>(m2) {
        lemma_mul_zero_poly::<BitWrapper>(g, m2);
        lemma_same_is_zero::<BitWrapper>(p, poly_mul::<BitWrapper>(g, m2));
    }
    lemma_mul_order::<BitWrapper>(g, m1);
    lemma_same_order::<BitWrapper>(pa, poly_mul::<BitWrapper>(g, m1));
    lemma_mul_order::<BitWrapper>(g, m2);
    lemma_same_order::<BitWrapper>(p, poly_mul::<BitWrapper>(g, m2));
    assert(order::<BitWrapper>(g) <= 7);
    if order::<BitWrapper>(g) <= 4 {
        lemma_large_factor(g, m2);
    } else {
        lemma_mul_comm::<BitWrapper>(m2, g);
        lemma_large_factor(m2, g);
    }
    lemma_unit(g);
}

/// The polynomial that the extended Euclidean algorithm gives for a nonzero
/// byte is its inverse modulo the primitive polynomial: their product
/// leaves the remainder one.
pub proof fn law_inverse_of_byte(a: u8)
    requires
        a != 0,
    ensures
        same_poly::<BitWrapper>(
            residue(poly_mul::<BitWrapper>(inverse_bits(a), byte_bits(a))),
            one_poly::<BitWrapper>(),
        ),
        same_poly::<BitWrapper>(
            residue(poly_mul::<BitWrapper>(byte_bits(a), inverse_bits(a))),
            one_poly::<BitWrapper>(),
        ),
{
    let pa = byte_bits(a);
    let p = primitive_bits();
    let s = poly_egcd::<BitWrapper>(pa, p).0;
    let one = one_poly::<BitWrapper>();
    lemma_primitive();
    lemma_coprime(a);
    law_modular_inverse::<BitWrapper>(pa, p);
    assert(below::<BitWrapper>(one, 8));
    lemma_remainder_of_small::<BitWrapper>(one, p);
    lemma_mul_comm::<BitWrapper>(pa, s);
    lemma_reduce_same(poly_mul::<BitWrapper>(pa, s), poly_mul::<BitWrapper>(s, pa));
}

/// The quotient of bytes is the reduced product with the inverse.
pub proof fn lemma_gf_div(x: u8, a: u8)
    ensures
        gf_div(x, a) == reduce(poly_mul::<BitWrapper>(byte_bits(x), inverse_bits(a))),
{
    reveal(gf_div);
}

/// `(x / a) * a == x` for a nonzero `a`.
pub proof fn lemma_gf_div_undoes_mul(x: u8, a: u8)
    requires
        a != 0,
    ensures
        gf_mul(gf_div(x, a), a) == x,
{
    let px = byte_bits(x);
    let pa = byte_bits(a);
    let p = primitive_bits();
    let s = inverse_bits(a);
    let one = one_poly::<BitWrapper>();
    lemma_primitive();
    lemma_gf_div(x, a);
    lemma_gf_mul(gf_div(x, a), a);
    let xs = poly_mul::<BitWrapper>(px, s);
    lemma_reduce_mul_left(xs, pa);
    // (x * s) * a = x * (s * a) = (s * a) * x
    let sa = poly_mul::<BitWrapper>(s, pa);
    lemma_mul_assoc::<BitWrapper>(px, s, pa);
    lemma_mul_comm::<BitWrapper>(px, sa);
    lemma_reduce_same(poly_mul::<BitWrapper>(xs, pa), poly_mul::<BitWrapper>(sa, px));
    // the remainder of (s * a) * x is that of one * x
    lemma_remainder_mul::<BitWrapper>(sa, px, p);
    law_inverse_of_byte(a);
    lemma_same_mul::<BitWrapper>(residue(sa), one, px, px);
    lemma_reduce_same(poly_mul::<BitWrapper>(residue(sa), px), poly_mul::<BitWrapper>(one, px));
    lemma_mul_comm::<BitWrapper>(one, px);
    lemma_mul_one::<BitWrapper>(px);
    lemma_reduce_same(poly_mul::<BitWrapper>(one, px), px);
    lemma_reduce_bits(x);
    lemma_same_byte(
        residue(poly_mul::<BitWrapper>(sa, px)),
        residue(poly_mul::<BitWrapper>(residue(sa), px)),
    );
}

/// The laws of arithmetic in GF(256): addition and multiplication are
/// commutative and associative, multiplication distributes over addition,
/// a quotient times its divisor is the dividend, and a nonzero element
/// divided by itself is one.
pub proof fn law_arithmetic(x: u8, y: u8, z: u8)
    ensures
        Gf256::add_view(x, y) == Gf256::add_view(y, x),
        Gf256::add_view(Gf256::add_view(x, y), z) == Gf256::add_view(x, Gf256::add_view(y, z)),
        Gf256::mul_view(x, y) == Gf256::mul_view(y, x),
        Gf256::mul_view(Gf256::mul_view(x, y), z) == Gf256::mul_view(x, Gf256::mul_view(y, z)),
        Gf256::mul_view(x, Gf256::add_view(y, z)) == Gf256::add_view(
            Gf256::mul_view(x, y),
            Gf256::mul_view(x, z),
        ),
        y != 0 ==> Gf256::mul_view(Gf256::div_view(x, y), y) == x,
        x != 0 ==> Gf256::div_view(x, x) == 1,
{
    Gf256::add_commutative(x, y);
    Gf256::add_associative(x, y, z);
    Gf256::mul_commutative(x, y);
    Gf256::mul_associative(x, y, z);
    Gf256::distributive(x, y, z);
    if y != 0 {
        Gf256::div_undoes_mul(x, y);
    }
    if x != 0 {
        lemma_div_self::<Gf256>(x);
    }
}

/// A byte, written as the polynomial of its binary digits and read back as
/// the byte of that polynomial, is the same byte.
pub proof fn law_byte_round_trip(b: u8)
    ensures
        byte_value(bits_of(b as nat)) == b,
        below::<BitWrapper>(bits_of(b as nat), 8),
{
    lemma_bits_of_byte(b);
}

} // verus!
