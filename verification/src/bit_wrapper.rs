//! The field of two elements, one bit per element.
use crate::field::{DivisionByZero, Field, FieldLaws, One, Zero};
use crate::poly_model::views;
use vstd::prelude::*;

verus! {

/// The binary digits of `n`, lowest first, down to and including the highest
/// digit that is one; a single zero digit for 0.
pub open spec fn bits_of(n: nat) -> Seq<bool>
    decreases n,
{
    if n / 2 == 0 {
        seq![n % 2 == 1]
    } else {
        seq![n % 2 == 1] + bits_of(n / 2)
    }
}

/// Numbers that can be written as a sequence of bits.
pub trait IntoBit: Sized {
    /// The number as a mathematical integer.
    spec fn number(self) -> int;

    /// The binary digits of a number that is not negative, lowest first.
    fn into_bit(self) -> (bits: Vec<BitWrapper>)
        requires
            self.number() >= 0,
        ensures
            views(bits@) == bits_of(self.number() as nat),
    ;
}

impl IntoBit for u8 {
    open spec fn number(self) -> int {
        self as int
    }

    fn into_bit(self) -> (bits: Vec<BitWrapper>) {
        let mut n: u8 = self;
        let mut bits: Vec<BitWrapper> = Vec::new();
        bits.push(BitWrapper(n % 2 == 1));
        n = n / 2;
        assert(views(bits@) =~= seq![self % 2 == 1]);
        while n != 0
            invariant
                n == 0 ==> views(bits@) == bits_of(self as nat),
                n != 0 ==> views(bits@) + bits_of(n as nat) == bits_of(self as nat),
            decreases n,
        {
            let ghost before = views(bits@);
            bits.push(BitWrapper(n % 2 == 1));
            assert(views(bits@) =~= before + seq![n % 2 == 1]);
            assert(before + (seq![n % 2 == 1] + bits_of((n / 2) as nat)) =~= before + seq![
                n % 2 == 1,
            ] + bits_of((n / 2) as nat));
            n = n / 2;
        }
        bits
    }
}

impl IntoBit for i32 {
    open spec fn number(self) -> int {
        self as int
    }

    fn into_bit(self) -> (bits: Vec<BitWrapper>) {
        let mut n: i32 = self;
        let mut bits: Vec<BitWrapper> = Vec::new();
        bits.push(BitWrapper(n % 2 == 1));
        n = n / 2;
        assert(views(bits@) =~= seq![self % 2 == 1]);
        while n != 0
            invariant
                0 <= n,
                n == 0 ==> views(bits@) == bits_of(self as nat),
                n != 0 ==> views(bits@) + bits_of(n as nat) == bits_of(self as nat),
            decreases n,
        {
            let ghost before = views(bits@);
            bits.push(BitWrapper(n % 2 == 1));
            assert(views(bits@) =~= before + seq![n % 2 == 1]);
            assert(before + (seq![n % 2 == 1] + bits_of((n / 2) as nat)) =~= before + seq![
                n % 2 == 1,
            ] + bits_of((n / 2) as nat));
            n = n / 2;
        }
        bits
    }
}

/// An element of GF(2): `false` is zero, `true` is one.
#[derive(Debug, PartialEq, Copy, Clone, Eq, Structural)]
pub struct BitWrapper(bool);

impl View for BitWrapper {
    type V = bool;

    closed spec fn view(&self) -> bool {
        self.0
    }
}

impl One for BitWrapper {
    open spec fn one_view() -> bool {
        true
    }

    fn one() -> (r: Self) {
        BitWrapper(true)
    }
}

impl Zero for BitWrapper {
    open spec fn zero_view() -> bool {
        false
    }

    fn zero() -> (r: Self) {
        BitWrapper(false)
    }
}

impl Field for BitWrapper {
    open spec fn add_view(a: bool, b: bool) -> bool {
        a != b
    }

    open spec fn sub_view(a: bool, b: bool) -> bool {
        a != b
    }

    open spec fn mul_view(a: bool, b: bool) -> bool {
        a && b
    }

    open spec fn div_view(a: bool, b: bool) -> bool {
        a && b
    }

    fn add(self, rhs: Self) -> (r: Self) {
        BitWrapper(self.0 ^ rhs.0)
    }

    fn sub(self, rhs: Self) -> (r: Self) {
        BitWrapper(self.0 ^ rhs.0)
    }

    fn mul(self, rhs: Self) -> (r: Self) {
        BitWrapper(self.0 && rhs.0)
    }

    fn div(self, rhs: Self) -> (r: Result<Self, DivisionByZero>) {
        if rhs.0 {
            Ok(BitWrapper(self.0 && rhs.0))
        } else {
            Err(DivisionByZero)
        }
    }

    fn same(&self, other: &Self) -> (r: bool) {
        self.0 == other.0
    }

    proof fn clone_keeps_view(a: Self, b: Self) {
    }
}

impl FieldLaws for BitWrapper {
    proof fn add_commutative(a: bool, b: bool) {
    }

    proof fn add_associative(a: bool, b: bool, c: bool) {
    }

    proof fn add_zero(a: bool) {
    }

    proof fn sub_undoes_add(a: bool, b: bool) {
    }

    proof fn mul_commutative(a: bool, b: bool) {
    }

    proof fn mul_associative(a: bool, b: bool, c: bool) {
    }

    proof fn mul_one(a: bool) {
    }

    proof fn div_undoes_mul(a: bool, b: bool) {
    }

    proof fn distributive(a: bool, b: bool, c: bool) {
    }

    proof fn one_is_not_zero() {
    }
}

impl From<BitWrapper> for bool {
    fn from(bit: BitWrapper) -> (b: bool) {
        bit.0
    }
}

impl vstd::std_specs::convert::FromSpecImpl<BitWrapper> for bool {
    open spec fn obeys_from_spec() -> bool {
        true
    }

    open spec fn from_spec(bit: BitWrapper) -> bool {
        bit@
    }
}

} // verus!
