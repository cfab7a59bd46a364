//! The laws of a commutative ring for the bytes of GF(256).
use crate::bit_wrapper::BitWrapper;
use crate::field::lemma_mul_nonzero;
use crate::gf256::Gf256;
use crate::gf256_model::{
    byte_bits, gf_mul, lemma_add_is_xor, lemma_bits_round_trip, lemma_byte_range,
    lemma_byte_round_trip, lemma_primitive, lemma_reduced, lemma_same_byte, primitive_bits, reduce,
};
use crate::poly_coeff::lemma_same_mul;
use crate::poly_congruence::lemma_same_divrem;
use crate::poly_laws::{lemma_mul_assoc, lemma_mul_comm, lemma_mul_distrib, lemma_mul_one};
use crate::poly_model::{coeff, one_poly, poly_add, poly_divrem, poly_mul, same_poly, zero_poly};
use crate::poly_remainder::{lemma_remainder_add, lemma_remainder_mul, lemma_remainder_of_small};
use vstd::prelude::*;

verus! {

/// The remainder of a binary polynomial modulo the primitive polynomial.
pub open spec fn residue(p: Seq<bool>) -> Seq<bool> {
    poly_divrem::<BitWrapper>(p, primitive_bits()).1
}

/// The same polynomial reduces to the same byte.
pub proof fn lemma_reduce_same(p: Seq<bool>, q: Seq<bool>)
    requires
        same_poly::<BitWrapper>(p, q),
    ensures
        reduce(p) == reduce(q),
        same_poly::<BitWrapper>(residue(p), residue(q)),
{
    lemma_same_divrem::<BitWrapper>(p, q, primitive_bits(), primitive_bits());
    lemma_same_byte(residue(p), residue(q));
}

/// The polynomial of a reduced byte is the remainder that was reduced.
pub proof fn lemma_bits_of_reduce(p: Seq<bool>)
    ensures
        same_poly::<BitWrapper>(byte_bits(reduce(p)), residue(p)),
{
    lemma_reduced(p);
    lemma_bits_round_trip(residue(p));
}

/// The polynomial of a byte reduces to that byte.
pub proof fn lemma_reduce_bits(a: u8)
    ensures
        reduce(byte_bits(a)) == a,
        same_poly::<BitWrapper>(residue(byte_bits(a)), byte_bits(a)),
{
    lemma_primitive();
    lemma_byte_round_trip(a);
    lemma_remainder_of_small::<BitWrapper>(byte_bits(a), primitive_bits());
    lemma_same_byte(residue(byte_bits(a)), byte_bits(a));
}

/// The product of bytes is the reduced product of their polynomials.
pub proof fn lemma_gf_mul(a: u8, b: u8)
    ensures
        gf_mul(a, b) == reduce(poly_mul::<BitWrapper>(byte_bits(a), byte_bits(b))),
{
    reveal(gf_mul);
}

/// A factor that is the polynomial of a reduced byte can be replaced by the
/// polynomial that was reduced.
pub proof fn lemma_reduce_mul_left(p: Seq<bool>, c: Seq<bool>)
    ensures
        reduce(poly_mul::<BitWrapper>(byte_bits(reduce(p)), c)) == reduce(
            poly_mul::<BitWrapper>(p, c),
        ),
{
    lemma_primitive();
    lemma_bits_of_reduce(p);
    lemma_same_mul::<BitWrapper>(byte_bits(reduce(p)), residue(p), c, c);
    lemma_reduce_same(
        poly_mul::<BitWrapper>(byte_bits(reduce(p)), c),
        poly_mul::<BitWrapper>(residue(p), c),
    );
    lemma_remainder_mul::<BitWrapper>(p, c, primitive_bits());
    lemma_same_byte(
        residue(poly_mul::<BitWrapper>(p, c)),
        residue(poly_mul::<BitWrapper>(residue(p), c)),
    );
}

/// The same, for the factor on the right.
pub proof fn lemma_reduce_mul_right(c: Seq<bool>, p: Seq<bool>)
    ensures
        reduce(poly_mul::<BitWrapper>(c, byte_bits(reduce(p)))) == reduce(
            poly_mul::<BitWrapper>(c, p),
        ),
{
    let b = byte_bits(reduce(p));
    lemma_mul_comm::<BitWrapper>(c, b);
    lemma_reduce_same(poly_mul::<BitWrapper>(c, b), poly_mul::<BitWrapper>(b, c));
    lemma_reduce_mul_left(p, c);
    lemma_mul_comm::<BitWrapper>(p, c);
    lemma_reduce_same(poly_mul::<BitWrapper>(p, c), poly_mul::<BitWrapper>(c, p));
}

/// `a * b == b * a`.
pub proof fn lemma_gf_mul_commutative(a: u8, b: u8)
    ensures
        gf_mul(a, b) == gf_mul(b, a),
{
    lemma_gf_mul(a, b);
    lemma_gf_mul(b, a);
    lemma_mul_comm::<BitWrapper>(byte_bits(a), byte_bits(b));
    lemma_reduce_same(
        poly_mul::<BitWrapper>(byte_bits(a), byte_bits(b)),
        poly_mul::<BitWrapper>(byte_bits(b), byte_bits(a)),
    );
}

/// `(a * b) * c == a * (b * c)`.
pub proof fn lemma_gf_mul_associative(a: u8, b: u8, c: u8)
    ensures
        gf_mul(gf_mul(a, b), c) == gf_mul(a, gf_mul(b, c)),
{
    let pa = byte_bits(a);
    let pb = byte_bits(b);
    let pc = byte_bits(c);
    let ab = poly_mul::<BitWrapper>(pa, pb);
    let bc = poly_mul::<BitWrapper>(pb, pc);
    lemma_gf_mul(a, b);
    lemma_gf_mul(b, c);
    lemma_gf_mul(gf_mul(a, b), c);
    lemma_gf_mul(a, gf_mul(b, c));
    lemma_reduce_mul_left(ab, pc);
    lemma_reduce_mul_right(pa, bc);
    lemma_mul_assoc::<BitWrapper>(pa, pb, pc);
    lemma_reduce_same(poly_mul::<BitWrapper>(ab, pc), poly_mul::<BitWrapper>(pa, bc));
}

/// The polynomial of an exclusive or is the sum of the polynomials.
pub proof fn lemma_bits_of_xor(a: u8, b: u8)
    ensures
        same_poly::<BitWrapper>(
            byte_bits(a ^ b),
            poly_add::<BitWrapper>(byte_bits(a), byte_bits(b)),
        ),
{
    lemma_byte_round_trip(a);
    lemma_byte_round_trip(b);
    lemma_add_is_xor(byte_bits(a), byte_bits(b));
    lemma_bits_round_trip(poly_add::<BitWrapper>(byte_bits(a), byte_bits(b)));
}

/// `a * (b + c) == a * b + a * c`.
pub proof fn lemma_gf_distributive(a: u8, b: u8, c: u8)
    ensures
        gf_mul(a, b ^ c) == gf_mul(a, b) ^ gf_mul(a, c),
{
    let pa = byte_bits(a);
    let pb = byte_bits(b);
    let pc = byte_bits(c);
    let p = primitive_bits();
    lemma_primitive();
    lemma_gf_mul(a, b ^ c);
    lemma_gf_mul(a, b);
    lemma_gf_mul(a, c);
    lemma_bits_of_xor(b, c);
    let sum = poly_add::<BitWrapper>(pb, pc);
    lemma_same_mul::<BitWrapper>(pa, pa, byte_bits(b ^ c), sum);
    lemma_mul_distrib::<BitWrapper>(pa, pb, pc);
    let ab = poly_mul::<BitWrapper>(pa, pb);
    let ac = poly_mul::<BitWrapper>(pa, pc);
    lemma_reduce_same(
        poly_mul::<BitWrapper>(pa, byte_bits(b ^ c)),
        poly_add::<BitWrapper>(ab, ac),
    );
    lemma_remainder_add::<BitWrapper>(ab, ac, p);
    lemma_same_byte(
        residue(poly_add::<BitWrapper>(ab, ac)),
        poly_add::<BitWrapper>(residue(ab), residue(ac)),
    );
    lemma_reduced(ab);
    lemma_reduced(ac);
    lemma_add_is_xor(residue(ab), residue(ac));
    lemma_byte_range(residue(ab));
    lemma_byte_range(residue(ac));
}

/// The polynomial of the byte 1 is the polynomial one, and that of 0 is zero.
pub proof fn lemma_bits_of_one()
    ensures
        same_poly::<BitWrapper>(byte_bits(1), one_poly::<BitWrapper>()),
        same_poly::<BitWrapper>(byte_bits(0), zero_poly::<BitWrapper>()),
{
    let one = one_poly::<BitWrapper>();
    let zero = zero_poly::<BitWrapper>();
    assert forall|i: int|
        coeff::<BitWrapper>(byte_bits(1), i) == coeff::<BitWrapper>(one, i) by {
        if 0 <= i < 8 {
            assert(byte_bits(1)[i] == (i == 0));
        }
    }
    assert forall|i: int|
        coeff::<BitWrapper>(byte_bits(0), i) == coeff::<BitWrapper>(zero, i) by {
        if 0 <= i < 8 {
            assert(byte_bits(0)[i] == false);
        }
    }
}

/// `a * 1 == a`.
pub proof fn lemma_gf_mul_one(a: u8)
    ensures
        gf_mul(a, 1) == a,
{
    let pa = byte_bits(a);
    lemma_gf_mul(a, 1);
    lemma_bits_of_one();
    lemma_same_mul::<BitWrapper>(pa, pa, byte_bits(1), one_poly::<BitWrapper>());
    lemma_mul_one::<BitWrapper>(pa);
    lemma_reduce_same(poly_mul::<BitWrapper>(pa, byte_bits(1)), pa);
    lemma_reduce_bits(a);
}

/// `a ^ b == b ^ a`, `(a ^ b) ^ c == a ^ (b ^ c)`, `a ^ 0 == a` and
/// `(a ^ b) ^ b == a`: the laws of addition in GF(256).
pub proof fn lemma_xor_laws(a: u8, b: u8, c: u8)
    by (bit_vector)
    ensures
        a ^ b == b ^ a,
        (a ^ b) ^ c == a ^ (b ^ c),
        a ^ 0 == a,
        (a ^ b) ^ b == a,
        a ^ a == 0,
{
}

/// `(x + y) * z == x * z + y * z`.
pub proof fn lemma_gf_distributive_left(x: u8, y: u8, z: u8)
    ensures
        gf_mul(x ^ y, z) == gf_mul(x, z) ^ gf_mul(y, z),
{
    lemma_gf_mul_commutative(x ^ y, z);
    lemma_gf_distributive(z, x, y);
    lemma_gf_mul_commutative(z, x);
    lemma_gf_mul_commutative(z, y);
}

/// `(x + y)^2 == x^2 + y^2`: squaring is additive in characteristic two.
pub proof fn lemma_gf_square_of_sum(x: u8, y: u8)
    ensures
        gf_mul(x ^ y, x ^ y) == gf_mul(x, x) ^ gf_mul(y, y),
{
    lemma_gf_distributive(x ^ y, x, y);
    lemma_gf_distributive_left(x, y, x);
    lemma_gf_distributive_left(x, y, y);
    lemma_gf_mul_commutative(x, y);
    let xx = gf_mul(x, x);
    let xy = gf_mul(x, y);
    let yy = gf_mul(y, y);
    assert(((xx ^ xy) ^ (xy ^ yy)) == (xx ^ yy)) by (bit_vector);
}

/// A product of bytes is zero only if a factor is.
pub proof fn lemma_gf_no_zero_divisors(x: u8, y: u8)
    requires
        gf_mul(x, y) == 0,
    ensures
        x == 0 || y == 0,
{
    if x != 0 && y != 0 {
        lemma_mul_nonzero::<Gf256>(x, y);
    }
}

} // verus!
