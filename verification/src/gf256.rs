//! The field GF(256): binary polynomials of degree under eight, multiplied
//! modulo `x^8 + x^4 + x^3 + x^2 + 1`.  Every element is a byte and every byte
//! an element: bit `i` of the byte is the coefficient of degree `i`.
use crate::bit_wrapper::{BitWrapper, IntoBit};
use crate::field::{DivisionByZero, Field, FieldLaws, One, Zero};
use crate::gf256_field::lemma_gf_div_undoes_mul;
use crate::gf256_laws::{
    lemma_gf_distributive, lemma_gf_mul_associative, lemma_gf_mul_commutative, lemma_gf_mul_one,
    lemma_xor_laws,
};
use crate::gf256_model::{
    byte_value, gf_div, gf_mul, lemma_add_is_xor, lemma_bits_of_byte, lemma_byte_range,
    lemma_byte_same, lemma_byte_zero, lemma_div_by_bytes, lemma_mul_by_bytes, lemma_primitive,
    lemma_reduced, lemma_same_byte, primitive_bits, weight,
};
use crate::operation::ModInv;
use crate::poly::Poly;
use crate::poly_model::{below, coeff, poly_add, poly_sub};
use vstd::prelude::*;
use vstd::std_specs::cmp::PartialEqSpecImpl;
use vstd::std_specs::convert::FromSpecImpl;

verus! {

/// The bit pattern of the polynomial that products are reduced by.
pub const PRIMITIVE: i32 = 285;

/// An element of GF(256).  The polynomial inside may carry zeros above
/// degree seven; nothing else is ever above it.
#[derive(Debug)]
pub struct Gf256(Poly<BitWrapper>);

impl View for Gf256 {
    type V = u8;

    /// The byte that the element stands for.
    closed spec fn view(&self) -> u8 {
        byte_value(self.0@) as u8
    }
}

/// The weight `w` if the coefficient of degree `i` is set, else 0.
fn weight_at(p: &Poly<BitWrapper>, i: usize, w: u8) -> (r: u8)
    ensures
        r == weight(coeff::<BitWrapper>(p@, i as int), w),
{
    if bool::from(p.coefficient(i)) {
        w
    } else {
        0
    }
}

impl Gf256 {
    #[verifier::type_invariant]
    spec fn reduced(self) -> bool {
        below::<BitWrapper>(self.0@, 8)
    }

    /// The polynomial `x^8 + x^4 + x^3 + x^2 + 1`.
    pub fn primitive() -> (p: Poly<BitWrapper>)
        ensures
            p@ == primitive_bits(),
    {
        proof {
            lemma_primitive();
        }
        Poly::new(PRIMITIVE.into_bit())
    }

    /// The byte that the element stands for.
    pub fn to_byte(&self) -> (b: u8)
        ensures
            b == self@,
    {
        let p = &self.0;
        proof {
            lemma_byte_range(p@);
        }
        let low = weight_at(p, 0, 1) + weight_at(p, 1, 2) + weight_at(p, 2, 4) + weight_at(p, 3, 8);
        let high = weight_at(p, 4, 16) + weight_at(p, 5, 32) + weight_at(p, 6, 64) + weight_at(
            p,
            7,
            128,
        );
        low + high
    }
}

impl Clone for Gf256 {
    fn clone(&self) -> (r: Self)
        ensures
            r@ == self@,
    {
        proof {
            use_type_invariant(self);
        }
        Gf256(self.0.clone())
    }
}

impl From<u8> for Gf256 {
    /// The element whose byte is `x`.
    fn from(x: u8) -> (r: Self)
        ensures
            r@ == x,
    {
        proof {
            lemma_bits_of_byte(x);
        }
        Gf256(Poly::new(x.into_bit()))
    }
}

impl FromSpecImpl<u8> for Gf256 {
    open spec fn obeys_from_spec() -> bool {
        false
    }

    open spec fn from_spec(x: u8) -> Gf256 {
        arbitrary()
    }
}

impl From<Gf256> for u8 {
    /// The byte of the element.
    fn from(x: Gf256) -> (b: u8) {
        x.to_byte()
    }
}

impl FromSpecImpl<Gf256> for u8 {
    open spec fn obeys_from_spec() -> bool {
        true
    }

    open spec fn from_spec(x: Gf256) -> u8 {
        x@
    }
}

impl PartialEq for Gf256 {
    fn eq(&self, other: &Self) -> (r: bool) {
        self.same(other)
    }
}

impl Eq for Gf256 {

}

impl PartialEqSpecImpl for Gf256 {
    open spec fn obeys_eq_spec() -> bool {
        true
    }

    open spec fn eq_spec(&self, other: &Self) -> bool {
        self@ == other@
    }
}

impl Zero for Gf256 {
    open spec fn zero_view() -> u8 {
        0u8
    }

    fn zero() -> (r: Self) {
        Gf256::from(0)
    }
}

impl One for Gf256 {
    open spec fn one_view() -> u8 {
        1u8
    }

    fn one() -> (r: Self) {
        Gf256::from(1)
    }
}

impl Field for Gf256 {
    open spec fn add_view(a: u8, b: u8) -> u8 {
        a ^ b
    }

    open spec fn sub_view(a: u8, b: u8) -> u8 {
        a ^ b
    }

    open spec fn mul_view(a: u8, b: u8) -> u8 {
        gf_mul(a, b)
    }

    open spec fn div_view(a: u8, b: u8) -> u8 {
        gf_div(a, b)
    }

    fn add(self, rhs: Self) -> (r: Self) {
        proof {
            use_type_invariant(&self);
            use_type_invariant(&rhs);
            lemma_add_is_xor(self.0@, rhs.0@);
            lemma_byte_range(self.0@);
            lemma_byte_range(rhs.0@);
        }
        Gf256(self.0.add(rhs.0))
    }

    fn sub(self, rhs: Self) -> (r: Self) {
        proof {
            use_type_invariant(&self);
            use_type_invariant(&rhs);
            lemma_add_is_xor(self.0@, rhs.0@);
            assert(poly_sub::<BitWrapper>(self.0@, rhs.0@) =~= poly_add::<BitWrapper>(
                self.0@,
                rhs.0@,
            ));
        }
        Gf256(self.0.sub(rhs.0))
    }

    fn mul(self, rhs: Self) -> (r: Self) {
        proof {
            use_type_invariant(&self);
            use_type_invariant(&rhs);
            lemma_primitive();
            lemma_mul_by_bytes(self.0@, rhs.0@);
        }
        let product = self.0.mul(rhs.0);
        proof {
            lemma_reduced(product@);
        }
        match product.rem(Self::primitive()) {
            Ok(m) => Gf256(m),
            Err(_) => vstd::pervasive::unreached(),
        }
    }

    /// The quotient: what the divisor has to be multiplied by to give the
    /// dividend.
    fn div(self, rhs: Self) -> (r: Result<Self, DivisionByZero>)
        ensures
            r matches Ok(v) ==> gf_mul(v@, rhs@) == self@,
    {
        proof {
            use_type_invariant(&self);
            use_type_invariant(&rhs);
            lemma_primitive();
            lemma_byte_zero(rhs.0@);
            lemma_div_by_bytes(self.0@, rhs.0@);
            if rhs@ != 0 {
                lemma_gf_div_undoes_mul(self@, rhs@);
            }
        }
        if rhs.0.is_zero() {
            return Err(DivisionByZero);
        }
        let inverse = match rhs.0.modinv(Self::primitive()) {
            Ok(v) => v,
            Err(_) => vstd::pervasive::unreached(),
        };
        let product = self.0.mul(inverse);
        proof {
            lemma_reduced(product@);
        }
        match product.rem(Self::primitive()) {
            Ok(m) => Ok(Gf256(m)),
            Err(_) => vstd::pervasive::unreached(),
        }
    }

    fn same(&self, other: &Self) -> (r: bool) {
        proof {
            use_type_invariant(self);
            use_type_invariant(other);
            if crate::poly_model::same_poly::<BitWrapper>(self.0@, other.0@) {
                lemma_same_byte(self.0@, other.0@);
            }
            if byte_value(self.0@) == byte_value(other.0@) {
                lemma_byte_same(self.0@, other.0@);
            }
            lemma_byte_range(self.0@);
            lemma_byte_range(other.0@);
        }
        self.0 == other.0
    }

    proof fn clone_keeps_view(a: Self, b: Self) {
    }
}

/// GF(256) is a field.
impl FieldLaws for Gf256 {
    proof fn add_commutative(a: u8, b: u8) {
        lemma_xor_laws(a, b, 0);
    }

    proof fn add_associative(a: u8, b: u8, c: u8) {
        lemma_xor_laws(a, b, c);
    }

    proof fn add_zero(a: u8) {
        lemma_xor_laws(a, 0, 0);
    }

    proof fn sub_undoes_add(a: u8, b: u8) {
        lemma_xor_laws(a, b, 0);
    }

    proof fn mul_commutative(a: u8, b: u8) {
        lemma_gf_mul_commutative(a, b);
    }

    proof fn mul_associative(a: u8, b: u8, c: u8) {
        lemma_gf_mul_associative(a, b, c);
    }

    proof fn mul_one(a: u8) {
        lemma_gf_mul_one(a);
    }

    proof fn div_undoes_mul(a: u8, b: u8) {
        lemma_gf_div_undoes_mul(a, b);
    }

    proof fn distributive(a: u8, b: u8, c: u8) {
        lemma_gf_distributive(a, b, c);
    }

    proof fn one_is_not_zero() {
    }
}

} // verus!
