//! The mathematical model of GF(256): bytes, read as binary polynomials of
//! degree under eight, with products reduced modulo `x^8 + x^4 + x^3 + x^2 + 1`.
use crate::bit_wrapper::{bits_of, BitWrapper};
use crate::field::Zero;
use crate::poly_coeff::{lemma_order_is, lemma_same_mul};
use crate::poly_congruence::{lemma_same_divrem, lemma_same_egcd};
use crate::poly_model::{
    below, coeff, is_zero, order, poly_add, poly_divrem, poly_egcd, poly_mul, same_poly,
};
use crate::poly_order::lemma_divrem_below;
use vstd::prelude::*;

verus! {

/// `w` if the bit is set, else 0.
pub open spec fn weight(bit: bool, w: u8) -> u8 {
    if bit {
        w
    } else {
        0u8
    }
}

/// The byte whose bit `i` is the coefficient of degree `i`, for `i` under 8.
pub open spec fn byte_value(s: Seq<bool>) -> int {
    weight(coeff::<BitWrapper>(s, 0), 1) + weight(coeff::<BitWrapper>(s, 1), 2) + weight(
        coeff::<BitWrapper>(s, 2),
        4,
    ) + weight(coeff::<BitWrapper>(s, 3), 8) + weight(coeff::<BitWrapper>(s, 4), 16) + weight(
        coeff::<BitWrapper>(s, 5),
        32,
    ) + weight(coeff::<BitWrapper>(s, 6), 64) + weight(coeff::<BitWrapper>(s, 7), 128)
}

/// The eight coefficients that the bits of a byte stand for, lowest first.
pub open spec fn byte_bits(v: u8) -> Seq<bool> {
    seq![
        v % 2 == 1,
        v / 2 % 2 == 1,
        v / 4 % 2 == 1,
        v / 8 % 2 == 1,
        v / 16 % 2 == 1,
        v / 32 % 2 == 1,
        v / 64 % 2 == 1,
        v / 128 % 2 == 1,
    ]
}

/// The polynomial `x^8 + x^4 + x^3 + x^2 + 1`, the digits of 285.
pub open spec fn primitive_bits() -> Seq<bool> {
    seq![true, false, true, true, true, false, false, false, true]
}

/// The byte of the remainder of `p` modulo the primitive polynomial.
pub open spec fn reduce(p: Seq<bool>) -> u8 {
    byte_value(poly_divrem::<BitWrapper>(p, primitive_bits()).1) as u8
}

/// The product in GF(256): the polynomials multiplied, then reduced.
#[verifier::opaque]
pub open spec fn gf_mul(a: u8, b: u8) -> u8 {
    reduce(poly_mul::<BitWrapper>(byte_bits(a), byte_bits(b)))
}

/// The polynomial that the extended Euclidean algorithm gives as the
/// inverse of `b` modulo the primitive polynomial.
pub open spec fn inverse_bits(b: u8) -> Seq<bool> {
    poly_egcd::<BitWrapper>(byte_bits(b), primitive_bits()).0
}

/// The quotient in GF(256): the dividend multiplied by the inverse of the
/// divisor, then reduced.
#[verifier::opaque]
pub open spec fn gf_div(a: u8, b: u8) -> u8 {
    reduce(poly_mul::<BitWrapper>(byte_bits(a), inverse_bits(b)))
}

/// A byte is the sum of its binary digits, each with its weight.
proof fn lemma_byte_digits(v: u8)
    by (bit_vector)
    ensures
        v == weight(v % 2 == 1, 1) + weight(v / 2 % 2 == 1, 2) + weight(v / 4 % 2 == 1, 4)
            + weight(v / 8 % 2 == 1, 8) + weight(v / 16 % 2 == 1, 16) + weight(v / 32 % 2 == 1, 32)
            + weight(v / 64 % 2 == 1, 64) + weight(v / 128 % 2 == 1, 128),
{
}

/// The binary digits of a sum of weighted digits are those digits.
proof fn lemma_digits_byte(
    v: u8,
    b0: bool,
    b1: bool,
    b2: bool,
    b3: bool,
    b4: bool,
    b5: bool,
    b6: bool,
    b7: bool,
)
    by (bit_vector)
    requires
        v == weight(b0, 1) + weight(b1, 2) + weight(b2, 4) + weight(b3, 8) + weight(b4, 16)
            + weight(b5, 32) + weight(b6, 64) + weight(b7, 128),
    ensures
        (v % 2 == 1) == b0,
        (v / 2 % 2 == 1) == b1,
        (v / 4 % 2 == 1) == b2,
        (v / 8 % 2 == 1) == b3,
        (v / 16 % 2 == 1) == b4,
        (v / 32 % 2 == 1) == b5,
        (v / 64 % 2 == 1) == b6,
        (v / 128 % 2 == 1) == b7,
{
}

/// The bits of a byte give the byte back.
pub proof fn lemma_byte_round_trip(v: u8)
    ensures
        byte_value(byte_bits(v)) == v,
        below::<BitWrapper>(byte_bits(v), 8),
{
    let s = byte_bits(v);
    lemma_byte_digits(v);
    assert(coeff::<BitWrapper>(s, 0) == (v % 2 == 1));
    assert(coeff::<BitWrapper>(s, 1) == (v / 2 % 2 == 1));
    assert(coeff::<BitWrapper>(s, 2) == (v / 4 % 2 == 1));
    assert(coeff::<BitWrapper>(s, 3) == (v / 8 % 2 == 1));
    assert(coeff::<BitWrapper>(s, 4) == (v / 16 % 2 == 1));
    assert(coeff::<BitWrapper>(s, 5) == (v / 32 % 2 == 1));
    assert(coeff::<BitWrapper>(s, 6) == (v / 64 % 2 == 1));
    assert(coeff::<BitWrapper>(s, 7) == (v / 128 % 2 == 1));
}

/// The byte of a polynomial is a byte.
pub proof fn lemma_byte_range(s: Seq<bool>)
    ensures
        0 <= byte_value(s) < 256,
{
}

/// A polynomial of degree under eight is the polynomial of its byte.
pub proof fn lemma_bits_round_trip(s: Seq<bool>)
    requires
        below::<BitWrapper>(s, 8),
    ensures
        same_poly::<BitWrapper>(s, byte_bits(byte_value(s) as u8)),
{
    let v = byte_value(s) as u8;
    let t = byte_bits(v);
    lemma_digits_byte(
        v,
        coeff::<BitWrapper>(s, 0),
        coeff::<BitWrapper>(s, 1),
        coeff::<BitWrapper>(s, 2),
        coeff::<BitWrapper>(s, 3),
        coeff::<BitWrapper>(s, 4),
        coeff::<BitWrapper>(s, 5),
        coeff::<BitWrapper>(s, 6),
        coeff::<BitWrapper>(s, 7),
    );
    assert forall|i: int| coeff::<BitWrapper>(s, i) == coeff::<BitWrapper>(t, i) by {
        if 0 <= i < 8 {
            assert(t[i] == coeff::<BitWrapper>(s, i));
        } else if 8 <= i < s.len() {
            assert(s[i] == BitWrapper::zero_view());
        }
    }
}

/// The same polynomial has the same byte.
pub proof fn lemma_same_byte(s: Seq<bool>, t: Seq<bool>)
    requires
        same_poly::<BitWrapper>(s, t),
    ensures
        byte_value(s) == byte_value(t),
{
    assert(coeff::<BitWrapper>(s, 0) == coeff::<BitWrapper>(t, 0));
    assert(coeff::<BitWrapper>(s, 1) == coeff::<BitWrapper>(t, 1));
    assert(coeff::<BitWrapper>(s, 2) == coeff::<BitWrapper>(t, 2));
    assert(coeff::<BitWrapper>(s, 3) == coeff::<BitWrapper>(t, 3));
    assert(coeff::<BitWrapper>(s, 4) == coeff::<BitWrapper>(t, 4));
    assert(coeff::<BitWrapper>(s, 5) == coeff::<BitWrapper>(t, 5));
    assert(coeff::<BitWrapper>(s, 6) == coeff::<BitWrapper>(t, 6));
    assert(coeff::<BitWrapper>(s, 7) == coeff::<BitWrapper>(t, 7));
}

/// Polynomials of degree under eight with the same byte are the same.
pub proof fn lemma_byte_same(s: Seq<bool>, t: Seq<bool>)
    requires
        below::<BitWrapper>(s, 8),
        below::<BitWrapper>(t, 8),
        byte_value(s) == byte_value(t),
    ensures
        same_poly::<BitWrapper>(s, t),
{
    lemma_bits_round_trip(s);
    lemma_bits_round_trip(t);
    let u = byte_bits(byte_value(s) as u8);
    assert forall|i: int| coeff::<BitWrapper>(s, i) == coeff::<BitWrapper>(t, i) by {
        assert(coeff::<BitWrapper>(s, i) == coeff::<BitWrapper>(u, i));
        assert(coeff::<BitWrapper>(t, i) == coeff::<BitWrapper>(u, i));
    }
}

/// A polynomial of degree under eight is zero exactly if its byte is 0.
pub proof fn lemma_byte_zero(s: Seq<bool>)
    requires
        below::<BitWrapper>(s, 8),
    ensures
        is_zero::<BitWrapper>(s) <==> byte_value(s) == 0,
{
    if byte_value(s) == 0 {
        assert forall|i: int| 0 <= i < s.len() implies s[i] == BitWrapper::zero_view() by {
            if i < 8 {
                assert(weight(coeff::<BitWrapper>(s, i), 1) == 0);
            }
        }
    }
}

/// The digits of a number: the lowest is its parity, and the others are
/// the digits of its half.
pub proof fn lemma_bits_of_step(n: nat, i: int)
    requires
        0 <= i,
    ensures
        coeff::<BitWrapper>(bits_of(n), 0) == (n % 2 == 1),
        coeff::<BitWrapper>(bits_of(n), i + 1) == coeff::<BitWrapper>(bits_of(n / 2), i),
{
    let rest = bits_of(n / 2);
    if n / 2 == 0 {
        assert(bits_of(0) =~= seq![false]);
    } else {
        assert(bits_of(n) == seq![n % 2 == 1] + rest);
        if i < rest.len() {
            assert(bits_of(n)[i + 1] == rest[i]);
        }
    }
}

/// The digit of degree `i` of a byte, for `i` from 8 on, is zero.
proof fn lemma_bits_of_high(v: u8, i: int)
    requires
        8 <= i,
    ensures
        coeff::<BitWrapper>(bits_of(v as nat), i) == false,
{
    let n = v as nat;
    lemma_bits_of_step(n, i - 1);
    lemma_bits_of_step(n / 2, i - 2);
    lemma_bits_of_step(n / 4, i - 3);
    lemma_bits_of_step(n / 8, i - 4);
    lemma_bits_of_step(n / 16, i - 5);
    lemma_bits_of_step(n / 32, i - 6);
    lemma_bits_of_step(n / 64, i - 7);
    lemma_bits_of_step(n / 128, i - 8);
    assert(n / 2 / 2 == n / 4);
    assert(n / 4 / 2 == n / 8);
    assert(n / 8 / 2 == n / 16);
    assert(n / 16 / 2 == n / 32);
    assert(n / 32 / 2 == n / 64);
    assert(n / 64 / 2 == n / 128);
    assert(n / 128 / 2 == 0);
    assert(bits_of(0) =~= seq![false]);
}

/// The digits of a number under 256 are the polynomial of that byte.
pub proof fn lemma_bits_of_byte(v: u8)
    ensures
        same_poly::<BitWrapper>(bits_of(v as nat), byte_bits(v)),
        below::<BitWrapper>(bits_of(v as nat), 8),
        byte_value(bits_of(v as nat)) == v,
{
    let n = v as nat;
    let s = bits_of(n);
    let t = byte_bits(v);
    lemma_bits_of_step(n, 0);
    lemma_bits_of_step(n / 2, 0);
    lemma_bits_of_step(n / 4, 0);
    lemma_bits_of_step(n / 8, 0);
    lemma_bits_of_step(n / 16, 0);
    lemma_bits_of_step(n / 32, 0);
    lemma_bits_of_step(n / 64, 0);
    lemma_bits_of_step(n / 128, 0);
    lemma_bits_of_step(n, 1);
    lemma_bits_of_step(n / 2, 1);
    lemma_bits_of_step(n / 4, 1);
    lemma_bits_of_step(n / 8, 1);
    lemma_bits_of_step(n / 16, 1);
    lemma_bits_of_step(n / 32, 1);
    lemma_bits_of_step(n, 2);
    lemma_bits_of_step(n / 2, 2);
    lemma_bits_of_step(n / 4, 2);
    lemma_bits_of_step(n / 8, 2);
    lemma_bits_of_step(n / 16, 2);
    lemma_bits_of_step(n, 3);
    lemma_bits_of_step(n / 2, 3);
    lemma_bits_of_step(n / 4, 3);
    lemma_bits_of_step(n / 8, 3);
    lemma_bits_of_step(n, 4);
    lemma_bits_of_step(n / 2, 4);
    lemma_bits_of_step(n / 4, 4);
    lemma_bits_of_step(n, 5);
    lemma_bits_of_step(n / 2, 5);
    lemma_bits_of_step(n, 6);
    assert(n / 2 / 2 == n / 4);
    assert(n / 4 / 2 == n / 8);
    assert(n / 8 / 2 == n / 16);
    assert(n / 16 / 2 == n / 32);
    assert(n / 32 / 2 == n / 64);
    assert(n / 64 / 2 == n / 128);
    assert(coeff::<BitWrapper>(s, 0) == t[0]);
    assert(coeff::<BitWrapper>(s, 1) == t[1]);
    assert(coeff::<BitWrapper>(s, 2) == t[2]);
    assert(coeff::<BitWrapper>(s, 3) == t[3]);
    assert(coeff::<BitWrapper>(s, 4) == t[4]);
    assert(coeff::<BitWrapper>(s, 5) == t[5]);
    assert(coeff::<BitWrapper>(s, 6) == t[6]);
    assert(coeff::<BitWrapper>(s, 7) == t[7]);
    assert forall|i: int| coeff::<BitWrapper>(s, i) == coeff::<BitWrapper>(t, i) by {
        if 8 <= i {
            lemma_bits_of_high(v, i);
        }
    }
    assert forall|i: int| 8 <= i < s.len() implies s[i] == BitWrapper::zero_view() by {
        lemma_bits_of_high(v, i);
    }
    lemma_same_byte(s, t);
    lemma_byte_round_trip(v);
}

/// The digits of 285 are the primitive polynomial, which has order 8.
pub proof fn lemma_primitive()
    ensures
        bits_of(285) == primitive_bits(),
        order::<BitWrapper>(primitive_bits()) == 8,
        !is_zero::<BitWrapper>(primitive_bits()),
{
    reveal_with_fuel(bits_of, 10);
    assert(bits_of(285) =~= primitive_bits());
    lemma_order_is::<BitWrapper>(primitive_bits(), 8);
    assert(primitive_bits()[8] != BitWrapper::zero_view());
}

/// A remainder modulo the primitive polynomial has degree under eight.
pub proof fn lemma_reduced(p: Seq<bool>)
    ensures
        below::<BitWrapper>(poly_divrem::<BitWrapper>(p, primitive_bits()).1, 8),
{
    lemma_primitive();
    lemma_divrem_below::<BitWrapper>(p, primitive_bits());
}

/// The byte of the digits that differ is the exclusive or of the bytes.
proof fn lemma_xor_weights(
    s0: bool,
    s1: bool,
    s2: bool,
    s3: bool,
    s4: bool,
    s5: bool,
    s6: bool,
    s7: bool,
    t0: bool,
    t1: bool,
    t2: bool,
    t3: bool,
    t4: bool,
    t5: bool,
    t6: bool,
    t7: bool,
)
    by (bit_vector)
    ensures
        weight(s0 != t0, 1) + weight(s1 != t1, 2) + weight(s2 != t2, 4) + weight(s3 != t3, 8)
            + weight(s4 != t4, 16) + weight(s5 != t5, 32) + weight(s6 != t6, 64) + weight(
            s7 != t7,
            128,
        ) == ((weight(s0, 1) + weight(s1, 2) + weight(s2, 4) + weight(s3, 8) + weight(s4, 16)
            + weight(s5, 32) + weight(s6, 64) + weight(s7, 128)) as u8) ^ ((weight(t0, 1) + weight(
            t1,
            2,
        ) + weight(t2, 4) + weight(t3, 8) + weight(t4, 16) + weight(t5, 32) + weight(t6, 64)
            + weight(t7, 128)) as u8),
{
}

/// The byte with the given bits, lowest first.
#[verifier::opaque]
pub open spec fn pack(
    b0: bool,
    b1: bool,
    b2: bool,
    b3: bool,
    b4: bool,
    b5: bool,
    b6: bool,
    b7: bool,
) -> u8 {
    (weight(b0, 1) + weight(b1, 2) + weight(b2, 4) + weight(b3, 8) + weight(b4, 16) + weight(
        b5,
        32,
    ) + weight(b6, 64) + weight(b7, 128)) as u8
}

/// The byte of the bits that differ is the exclusive or of the bytes.
proof fn lemma_pack_xor(
    s0: bool,
    s1: bool,
    s2: bool,
    s3: bool,
    s4: bool,
    s5: bool,
    s6: bool,
    s7: bool,
    t0: bool,
    t1: bool,
    t2: bool,
    t3: bool,
    t4: bool,
    t5: bool,
    t6: bool,
    t7: bool,
)
    ensures
        pack(s0 != t0, s1 != t1, s2 != t2, s3 != t3, s4 != t4, s5 != t5, s6 != t6, s7 != t7)
            == pack(s0, s1, s2, s3, s4, s5, s6, s7) ^ pack(t0, t1, t2, t3, t4, t5, t6, t7),
{
    reveal(pack);
    lemma_xor_weights(s0, s1, s2, s3, s4, s5, s6, s7, t0, t1, t2, t3, t4, t5, t6, t7);
}

/// The byte of a polynomial is the byte with its eight lowest coefficients as bits.
proof fn lemma_byte_pack(s: Seq<bool>)
    ensures
        byte_value(s) == pack(
            coeff::<BitWrapper>(s, 0),
            coeff::<BitWrapper>(s, 1),
            coeff::<BitWrapper>(s, 2),
            coeff::<BitWrapper>(s, 3),
            coeff::<BitWrapper>(s, 4),
            coeff::<BitWrapper>(s, 5),
            coeff::<BitWrapper>(s, 6),
            coeff::<BitWrapper>(s, 7),
        ),
{
    reveal(pack);
}

/// The coefficient of a sum of binary polynomials is set where exactly one
/// of the two coefficients is.
proof fn lemma_add_bit(s: Seq<bool>, t: Seq<bool>, i: int)
    ensures
        coeff::<BitWrapper>(poly_add::<BitWrapper>(s, t), i) == (coeff::<BitWrapper>(s, i)
            != coeff::<BitWrapper>(t, i)),
{
}

/// The byte of a sum of polynomials is the exclusive or of their bytes.
pub proof fn lemma_add_is_xor(s: Seq<bool>, t: Seq<bool>)
    requires
        below::<BitWrapper>(s, 8),
        below::<BitWrapper>(t, 8),
    ensures
        below::<BitWrapper>(poly_add::<BitWrapper>(s, t), 8),
        byte_value(poly_add::<BitWrapper>(s, t)) == ((byte_value(s) as u8) ^ (byte_value(t) as u8)),
{
    let sum = poly_add::<BitWrapper>(s, t);
    assert forall|i: int| 8 <= i < sum.len() implies sum[i] == BitWrapper::zero_view() by {
        lemma_add_bit(s, t, i);
    }
    lemma_add_bit(s, t, 0);
    lemma_add_bit(s, t, 1);
    lemma_add_bit(s, t, 2);
    lemma_add_bit(s, t, 3);
    lemma_add_bit(s, t, 4);
    lemma_add_bit(s, t, 5);
    lemma_add_bit(s, t, 6);
    lemma_add_bit(s, t, 7);
    lemma_byte_pack(s);
    lemma_byte_pack(t);
    lemma_byte_pack(sum);
    lemma_pack_xor(
        coeff::<BitWrapper>(s, 0),
        coeff::<BitWrapper>(s, 1),
        coeff::<BitWrapper>(s, 2),
        coeff::<BitWrapper>(s, 3),
        coeff::<BitWrapper>(s, 4),
        coeff::<BitWrapper>(s, 5),
        coeff::<BitWrapper>(s, 6),
        coeff::<BitWrapper>(s, 7),
        coeff::<BitWrapper>(t, 0),
        coeff::<BitWrapper>(t, 1),
        coeff::<BitWrapper>(t, 2),
        coeff::<BitWrapper>(t, 3),
        coeff::<BitWrapper>(t, 4),
        coeff::<BitWrapper>(t, 5),
        coeff::<BitWrapper>(t, 6),
        coeff::<BitWrapper>(t, 7),
    );
}

/// The byte of the reduced product depends on the bytes of the factors alone.
pub proof fn lemma_mul_by_bytes(s: Seq<bool>, t: Seq<bool>)
    requires
        below::<BitWrapper>(s, 8),
        below::<BitWrapper>(t, 8),
    ensures
        reduce(poly_mul::<BitWrapper>(s, t)) == gf_mul(byte_value(s) as u8, byte_value(t) as u8),
{
    reveal(gf_mul);
    let a = byte_bits(byte_value(s) as u8);
    let b = byte_bits(byte_value(t) as u8);
    lemma_bits_round_trip(s);
    lemma_bits_round_trip(t);
    lemma_same_mul::<BitWrapper>(s, a, t, b);
    let p = primitive_bits();
    lemma_same_divrem::<BitWrapper>(
        poly_mul::<BitWrapper>(s, t),
        poly_mul::<BitWrapper>(a, b),
        p,
        p,
    );
    lemma_same_byte(
        poly_divrem::<BitWrapper>(poly_mul::<BitWrapper>(s, t), p).1,
        poly_divrem::<BitWrapper>(poly_mul::<BitWrapper>(a, b), p).1,
    );
}

/// The byte of the reduced product with the inverse depends on the bytes of
/// dividend and divisor alone.
pub proof fn lemma_div_by_bytes(s: Seq<bool>, t: Seq<bool>)
    requires
        below::<BitWrapper>(s, 8),
        below::<BitWrapper>(t, 8),
    ensures
        reduce(
            poly_mul::<BitWrapper>(s, poly_egcd::<BitWrapper>(t, primitive_bits()).0),
        ) == gf_div(byte_value(s) as u8, byte_value(t) as u8),
{
    reveal(gf_div);
    let a = byte_bits(byte_value(s) as u8);
    let b = byte_bits(byte_value(t) as u8);
    let p = primitive_bits();
    lemma_bits_round_trip(s);
    lemma_bits_round_trip(t);
    lemma_same_egcd::<BitWrapper>(t, b, p, p);
    let inv = poly_egcd::<BitWrapper>(t, p).0;
    let inv2 = poly_egcd::<BitWrapper>(b, p).0;
    lemma_same_mul::<BitWrapper>(s, a, inv, inv2);
    lemma_same_divrem::<BitWrapper>(
        poly_mul::<BitWrapper>(s, inv),
        poly_mul::<BitWrapper>(a, inv2),
        p,
        p,
    );
    lemma_same_byte(
        poly_divrem::<BitWrapper>(poly_mul::<BitWrapper>(s, inv), p).1,
        poly_divrem::<BitWrapper>(poly_mul::<BitWrapper>(a, inv2), p).1,
    );
}

} // verus!
