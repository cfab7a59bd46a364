//! Polynomials over a field, held as a double-ended sequence of coefficients
//! with the constant term in front.
use crate::bit_wrapper::BitWrapper;
use crate::field::{DivisionByZero, Field, FieldLaws, One, Zero};
use crate::operation::{DivRem, Egcd, ModInv};
use crate::poly_euclid::{law_modular_inverse, lemma_bezout, poly_gcd};
use crate::poly_model::{
    below, coeff, constant, depth, is_zero, leading, max_len, nonzero_flag, one_poly, order,
    poly_add, poly_and, poly_divrem, poly_egcd, poly_mul, poly_mul_upto, poly_neg, poly_product,
    poly_scale, poly_shl, poly_shr, poly_sub, poly_sub_item, poly_sum, same_poly, views, zero_poly,
};
use crate::poly_order::{
    lemma_divrem_below, lemma_order, lemma_order_below, lemma_remainder_smaller,
};
use crate::poly_remainder::lemma_division_identity;
use std::collections::VecDeque;
use vstd::prelude::*;
use vstd::std_specs::cmp::PartialEqSpecImpl;

verus! {

/// A polynomial.  The sequence of coefficients is kept as it was built:
/// zeros at its end are not removed, and equality looks past them.
#[derive(Debug)]
pub struct Poly<T> {
    data: VecDeque<T>,
}

impl<T: View> View for Poly<T> {
    type V = Seq<T::V>;

    closed spec fn view(&self) -> Seq<T::V> {
        views(self.data@)
    }
}

/// A copy of a field element, with the value of its source.
pub fn copy_of<T: Field>(x: &T) -> (r: T)
    ensures
        r@ == x@,
{
    let r = x.clone();
    proof {
        T::clone_keeps_view(*x, r);
    }
    r
}

impl<T: Field> Clone for Poly<T> {
    fn clone(&self) -> (r: Self)
        ensures
            r@ == self@,
    {
        let mut data: VecDeque<T> = VecDeque::new();
        let n = self.data.len();
        let mut i: usize = 0;
        while i < n
            invariant
                n == self.data@.len(),
                i <= n,
                data@.len() == i,
                forall|j: int| 0 <= j < i ==> data@[j]@ == self.data@[j]@,
            decreases n - i,
        {
            data.push_back(copy_of(&self.data[i]));
            i += 1;
        }
        assert(views(data@) =~= views(self.data@));
        Poly { data }
    }
}

impl<T: Field> Zero for Poly<T> {
    open spec fn zero_view() -> Seq<T::V> {
        zero_poly::<T>()
    }

    fn zero() -> (r: Self) {
        let mut data: VecDeque<T> = VecDeque::new();
        data.push_back(T::zero());
        assert(views(data@) =~= zero_poly::<T>());
        Poly { data }
    }
}

impl<T: Field> One for Poly<T> {
    open spec fn one_view() -> Seq<T::V> {
        one_poly::<T>()
    }

    fn one() -> (r: Self) {
        let mut data: VecDeque<T> = VecDeque::new();
        data.push_back(T::one());
        assert(views(data@) =~= one_poly::<T>());
        Poly { data }
    }
}

impl<T: Field> PartialEq for Poly<T> {
    /// Two polynomials are equal when their coefficients agree at every
    /// degree, a missing coefficient counting as zero.
    fn eq(&self, other: &Self) -> (r: bool) {
        let l_len = self.data.len();
        let r_len = other.data.len();
        let zero = T::zero();
        let mut i: usize = 0;
        while i < l_len || i < r_len
            invariant
                l_len == self.data@.len(),
                r_len == other.data@.len(),
                zero@ == T::zero_view(),
                forall|j: int| 0 <= j < i ==> coeff::<T>(self@, j) == coeff::<T>(other@, j),
            decreases (if l_len >= r_len { l_len } else { r_len }) - i,
        {
            let equal = if i < l_len && i < r_len {
                self.data[i].same(&other.data[i])
            } else if i < l_len {
                self.data[i].same(&zero)
            } else {
                other.data[i].same(&zero)
            };
            if !equal {
                assert(coeff::<T>(self@, i as int) != coeff::<T>(other@, i as int));
                return false;
            }
            i += 1;
        }
        true
    }
}

impl<T: Field> Eq for Poly<T> {

}

impl<T: Field> PartialEqSpecImpl for Poly<T> {
    open spec fn obeys_eq_spec() -> bool {
        true
    }

    open spec fn eq_spec(&self, other: &Self) -> bool {
        same_poly::<T>(self@, other@)
    }
}

impl<T: Field> Poly<T> {
    /// The polynomial whose coefficient of degree `i` is `coefficient[i]`.
    pub fn new(coefficient: Vec<T>) -> (r: Self)
        ensures
            r@ == views(coefficient@),
    {
        let mut rest = coefficient;
        let mut data: VecDeque<T> = VecDeque::new();
        while rest.len() > 0
            invariant
                rest@ + data@ == coefficient@,
            decreases rest.len(),
        {
            let ghost before = rest@;
            let x = rest.pop().unwrap();
            data.push_front(x);
            assert(before == rest@.push(x));
            assert(rest@ + data@ =~= before + data@.subrange(1, data@.len() as int));
        }
        assert(data@ =~= coefficient@);
        Poly { data }
    }

    /// The number of coefficients held, zeros at the end included.
    pub fn len(&self) -> (n: usize)
        ensures
            n == self@.len(),
    {
        self.data.len()
    }

    /// The highest degree with a nonzero coefficient, or 0 if there is none.
    pub fn order(&self) -> (ord: usize)
        ensures
            ord == order::<T>(self@),
    {
        let n = self.data.len();
        let zero = T::zero();
        let mut ord: usize = 0;
        let mut i: usize = 0;
        while i < n
            invariant
                n == self.data@.len(),
                i <= n,
                zero@ == T::zero_view(),
                ord == order::<T>(self@.subrange(0, i as int)),
            decreases n - i,
        {
            let ghost upto = self@.subrange(0, i as int + 1);
            assert(upto.drop_last() =~= self@.subrange(0, i as int));
            assert(upto.last() == self@[i as int]);
            if !self.data[i].same(&zero) {
                ord = i;
            }
            i += 1;
        }
        assert(self@.subrange(0, n as int) =~= self@);
        ord
    }

    /// The term of degree `index` as a polynomial of its own; zero if the
    /// polynomial holds no coefficient of that degree.
    pub fn sub_item(&self, index: usize) -> (r: Self)
        ensures
            r@ == poly_sub_item::<T>(self@, index as nat),
    {
        if index < self.data.len() {
            let mut data: VecDeque<T> = VecDeque::new();
            data.push_back(copy_of(&self.data[index]));
            let single = Poly { data };
            assert(single@ =~= constant::<T>(self@[index as int]));
            single.shl(index)
        } else {
            Self::zero()
        }
    }

    /// The coefficient of degree `index`; zero if the polynomial holds none.
    pub fn coefficient(&self, index: usize) -> (c: T)
        ensures
            c@ == coeff::<T>(self@, index as int),
    {
        if index < self.data.len() {
            copy_of(&self.data[index])
        } else {
            T::zero()
        }
    }

    /// The constant term.
    pub fn first_coefficient(&self) -> (c: T)
        ensures
            c@ == coeff::<T>(self@, 0),
    {
        self.coefficient(0)
    }

    /// The coefficient at the order: the leading coefficient, or zero for a
    /// zero polynomial.
    pub fn last_coefficient(&self) -> (c: T)
        ensures
            c@ == leading::<T>(self@),
    {
        self.coefficient(self.order())
    }

    /// Extends the shorter of two polynomials at its high end with copies of
    /// `padding`, so that both hold equally many coefficients.
    pub fn align(&mut self, rhs: &mut Self, padding: T)
        ensures
            final(self)@.len() == max_len(old(self)@, old(rhs)@),
            final(rhs)@.len() == max_len(old(self)@, old(rhs)@),
            forall|i: int|
                0 <= i < final(self)@.len() ==> final(self)@[i] == (if i < old(self)@.len() {
                    old(self)@[i]
                } else {
                    padding@
                }),
            forall|i: int|
                0 <= i < final(rhs)@.len() ==> final(rhs)@[i] == (if i < old(rhs)@.len() {
                    old(rhs)@[i]
                } else {
                    padding@
                }),
    {
        let l = self.data.len();
        let r = rhs.data.len();
        let ghost before_l = self.data@;
        let ghost before_r = rhs.data@;
        if l > r {
            rhs.data.resize(l, padding);
            assert forall|i: int| 0 <= i < rhs@.len() implies rhs@[i] == (if i < r {
                views(before_r)[i]
            } else {
                padding@
            }) by {
                if i < r {
                    assert(rhs.data@.subrange(0, r as int)[i] == before_r[i]);
                } else {
                    T::clone_keeps_view(padding, rhs.data@[i]);
                }
            }
        } else {
            self.data.resize(r, padding);
            assert forall|i: int| 0 <= i < self@.len() implies self@[i] == (if i < l {
                views(before_l)[i]
            } else {
                padding@
            }) by {
                if i < l {
                    assert(self.data@.subrange(0, l as int)[i] == before_l[i]);
                } else {
                    T::clone_keeps_view(padding, self.data@[i]);
                }
            }
        }
    }

    /// The sum.
    pub fn add(self, rhs: Self) -> (r: Self)
        ensures
            r@ == poly_add::<T>(self@, rhs@),
    {
        let mut lhs = self;
        let mut rhs = rhs;
        let ghost a = lhs@;
        let ghost b = rhs@;
        lhs.align(&mut rhs, T::zero());
        let n = lhs.data.len();
        let mut data: VecDeque<T> = VecDeque::new();
        let mut i: usize = 0;
        while i < n
            invariant
                n == lhs.data@.len(),
                n == rhs.data@.len(),
                n == max_len(a, b),
                i <= n,
                forall|j: int| 0 <= j < n ==> lhs@[j] == coeff::<T>(a, j),
                forall|j: int| 0 <= j < n ==> rhs@[j] == coeff::<T>(b, j),
                data@.len() == i,
                forall|j: int| 0 <= j < i ==> data@[j]@ == poly_add::<T>(a, b)[j],
            decreases n - i,
        {
            let x = copy_of(&lhs.data[i]);
            let y = copy_of(&rhs.data[i]);
            assert(x@ == lhs@[i as int]);
            assert(y@ == rhs@[i as int]);
            data.push_back(x.add(y));
            i += 1;
        }
        assert(views(data@) =~= poly_add::<T>(a, b));
        Poly { data }
    }

    /// The difference.
    pub fn sub(self, rhs: Self) -> (r: Self)
        ensures
            r@ == poly_sub::<T>(self@, rhs@),
    {
        let mut lhs = self;
        let mut rhs = rhs;
        let ghost a = lhs@;
        let ghost b = rhs@;
        lhs.align(&mut rhs, T::zero());
        let n = lhs.data.len();
        let mut data: VecDeque<T> = VecDeque::new();
        let mut i: usize = 0;
        while i < n
            invariant
                n == lhs.data@.len(),
                n == rhs.data@.len(),
                n == max_len(a, b),
                i <= n,
                forall|j: int| 0 <= j < n ==> lhs@[j] == coeff::<T>(a, j),
                forall|j: int| 0 <= j < n ==> rhs@[j] == coeff::<T>(b, j),
                data@.len() == i,
                forall|j: int| 0 <= j < i ==> data@[j]@ == poly_sub::<T>(a, b)[j],
            decreases n - i,
        {
            let x = copy_of(&lhs.data[i]);
            let y = copy_of(&rhs.data[i]);
            assert(x@ == lhs@[i as int]);
            assert(y@ == rhs@[i as int]);
            data.push_back(x.sub(y));
            i += 1;
        }
        assert(views(data@) =~= poly_sub::<T>(a, b));
        Poly { data }
    }

    /// The additive inverse: every coefficient taken from zero.
    pub fn neg(self) -> (r: Self)
        ensures
            r@ == poly_neg::<T>(self@),
    {
        let n = self.data.len();
        let mut data: VecDeque<T> = VecDeque::new();
        let mut i: usize = 0;
        while i < n
            invariant
                n == self.data@.len(),
                i <= n,
                data@.len() == i,
                forall|j: int| 0 <= j < i ==> data@[j]@ == poly_neg::<T>(self@)[j],
            decreases n - i,
        {
            let x = copy_of(&self.data[i]);
            assert(x@ == self@[i as int]);
            data.push_back(T::zero().sub(x));
            i += 1;
        }
        assert(views(data@) =~= poly_neg::<T>(self@));
        Poly { data }
    }

    /// Multiplication by `x^rhs`.
    pub fn shl(self, rhs: usize) -> (r: Self)
        ensures
            r@ == poly_shl::<T>(self@, rhs as nat),
    {
        let mut out = self;
        let ghost a = out@;
        let mut i: usize = 0;
        while i < rhs
            invariant
                i <= rhs,
                out.data@.len() == a.len() + i,
                forall|j: int| 0 <= j < i ==> out.data@[j]@ == T::zero_view(),
                forall|j: int| 0 <= j < a.len() ==> out.data@[j + i]@ == a[j],
            decreases rhs - i,
        {
            let ghost before = out.data@;
            out.data.push_front(T::zero());
            assert forall|j: int| 0 <= j < a.len() implies out.data@[j + i + 1]@ == a[j] by {
                assert(out.data@[j + i + 1] == before[j + i]);
            }
            i += 1;
        }
        assert(out@ =~= poly_shl::<T>(a, rhs as nat));
        out
    }

    /// Division by `x^rhs`, the remainder discarded.  A polynomial that runs
    /// out of coefficients becomes the zero polynomial with one coefficient.
    pub fn shr(self, rhs: usize) -> (r: Self)
        ensures
            r@ == poly_shr::<T>(self@, rhs as nat),
    {
        let mut out = self;
        let ghost a = out@;
        if rhs == 0 {
            return out;
        }
        let n = out.data.len();
        if rhs >= n {
            return Self::zero();
        }
        let mut i: usize = 0;
        while i < rhs
            invariant
                i <= rhs,
                rhs < n,
                n == a.len(),
                out.data@.len() == n - i,
                forall|j: int| 0 <= j < n - i ==> out.data@[j]@ == a[j + i],
            decreases rhs - i,
        {
            let ghost before = out.data@;
            let _ = out.data.pop_front();
            assert forall|j: int| 0 <= j < n - i - 1 implies out.data@[j]@ == a[j + i + 1] by {
                assert(out.data@[j] == before[j + 1]);
            }
            i += 1;
        }
        assert(out@ =~= a.subrange(rhs as int, n as int));
        out
    }

    /// Every coefficient multiplied by `c`.
    pub fn scale(&self, c: &T) -> (r: Self)
        ensures
            r@ == poly_scale::<T>(self@, c@),
    {
        let n = self.data.len();
        let mut data: VecDeque<T> = VecDeque::new();
        let mut i: usize = 0;
        while i < n
            invariant
                n == self.data@.len(),
                i <= n,
                data@.len() == i,
                forall|j: int| 0 <= j < i ==> data@[j]@ == poly_scale::<T>(self@, c@)[j],
            decreases n - i,
        {
            let x = copy_of(&self.data[i]);
            assert(x@ == self@[i as int]);
            data.push_back(x.mul(copy_of(c)));
            i += 1;
        }
        assert(views(data@) =~= poly_scale::<T>(self@, c@));
        Poly { data }
    }

    /// The product, by the schoolbook method: one scaled and shifted copy of
    /// `self` for each term of `rhs`.
    pub fn mul(self, rhs: Self) -> (r: Self)
        ensures
            r@ == poly_mul::<T>(self@, rhs@),
    {
        let n = rhs.data.len();
        let mut acc = Self::zero();
        let mut i: usize = 0;
        while i < n
            invariant
                n == rhs.data@.len(),
                i <= n,
                acc@ == poly_mul_upto::<T>(self@, rhs@, i as nat),
            decreases n - i,
        {
            let term = self.scale(&rhs.data[i]).shl(i);
            assert(rhs.data@[i as int]@ == rhs@[i as int]);
            acc = acc.add(term);
            i += 1;
        }
        acc
    }

    /// Whether every coefficient is zero.
    pub fn is_zero(&self) -> (r: bool)
        ensures
            r == is_zero::<T>(self@),
    {
        let n = self.data.len();
        let zero = T::zero();
        let mut i: usize = 0;
        while i < n
            invariant
                n == self.data@.len(),
                i <= n,
                zero@ == T::zero_view(),
                forall|j: int| 0 <= j < i ==> self@[j] == T::zero_view(),
            decreases n - i,
        {
            if !self.data[i].same(&zero) {
                assert(self@[i as int] != T::zero_view());
                return false;
            }
            i += 1;
        }
        true
    }
}

impl<T: Field> Poly<T> {
    /// The polynomial with the single coefficient `c`.
    pub fn constant(c: T) -> (r: Self)
        ensures
            r@ == constant::<T>(c@),
    {
        let mut data: VecDeque<T> = VecDeque::new();
        data.push_back(c);
        assert(views(data@) =~= constant::<T>(c@));
        Poly { data }
    }

    /// Long division by a nonzero polynomial, from the lowest term upward.
    fn long_division(self, rhs: &Self) -> (r: (Self, Self))
        requires
            !is_zero::<T>(rhs@),
        ensures
            (r.0@, r.1@) == poly_divrem::<T>(self@, rhs@),
        decreases depth::<T>(self@),
    {
        if self.is_zero() {
            (Self::zero(), Self::zero())
        } else {
            let low = self.sub_item(0);
            let (q, r) = self.shr(1).long_division(rhs);
            let q = q.shl(1);
            let r = r.shl(1).add(low);
            if r.order() >= rhs.order() {
                let lead = rhs.last_coefficient();
                proof {
                    lemma_order::<T>(rhs@);
                }
                let inverse = match T::one().div(lead) {
                    Ok(v) => v,
                    Err(_) => vstd::pervasive::unreached(),
                };
                let c = inverse.mul(r.last_coefficient());
                let scaled = rhs.clone().mul(Self::constant(copy_of(&c)));
                (q.add(Self::constant(c)), r.sub(scaled))
            } else {
                (q, r)
            }
        }
    }
}

impl<T: FieldLaws> Poly<T> {
    /// The quotient of the division with remainder.
    pub fn div(self, rhs: Self) -> (r: Result<Self, DivisionByZero>)
        ensures
            r is Err <==> is_zero::<T>(rhs@),
            r matches Ok(q) ==> q@ == poly_divrem::<T>(self@, rhs@).0,
    {
        match self.divrem(rhs) {
            Ok(p) => Ok(p.0),
            Err(e) => Err(e),
        }
    }

    /// The remainder of the division with remainder: no coefficient of it
    /// is nonzero from the order of the divisor on.
    pub fn rem(self, rhs: Self) -> (r: Result<Self, DivisionByZero>)
        ensures
            r is Err <==> is_zero::<T>(rhs@),
            r matches Ok(m) ==> m@ == poly_divrem::<T>(self@, rhs@).1 && below::<T>(
                m@,
                order::<T>(rhs@) as int,
            ),
    {
        match self.divrem(rhs) {
            Ok(p) => Ok(p.1),
            Err(e) => Err(e),
        }
    }
}

impl<T: Field> Poly<T> {
    /// The sum of the polynomials of a list; zero for an empty list.
    pub fn sum(items: Vec<Self>) -> (r: Self)
        ensures
            r@ == poly_sum::<T>(views(items@)),
    {
        let n = items.len();
        let mut acc = Self::zero();
        let mut i: usize = 0;
        while i < n
            invariant
                n == items@.len(),
                i <= n,
                acc@ == poly_sum::<T>(views(items@).subrange(0, i as int)),
            decreases n - i,
        {
            let ghost upto = views(items@).subrange(0, i as int + 1);
            assert(upto.drop_last() =~= views(items@).subrange(0, i as int));
            assert(upto.last() == items@[i as int]@);
            acc = acc.add(items[i].clone());
            i += 1;
        }
        assert(views(items@).subrange(0, n as int) =~= views(items@));
        acc
    }

    /// The product of the polynomials of a list; one for an empty list.
    pub fn product(items: Vec<Self>) -> (r: Self)
        ensures
            r@ == poly_product::<T>(views(items@)),
    {
        let n = items.len();
        let mut acc = Self::one();
        let mut i: usize = 0;
        while i < n
            invariant
                n == items@.len(),
                i <= n,
                acc@ == poly_product::<T>(views(items@).subrange(0, i as int)),
            decreases n - i,
        {
            let ghost upto = views(items@).subrange(0, i as int + 1);
            assert(upto.drop_last() =~= views(items@).subrange(0, i as int));
            assert(upto.last() == items@[i as int]@);
            acc = acc.mul(items[i].clone());
            i += 1;
        }
        assert(views(items@).subrange(0, n as int) =~= views(items@));
        acc
    }
}

impl Poly<BitWrapper> {
    /// The coefficient-wise conjunction of two binary polynomials.
    pub fn bitand(self, rhs: Self) -> (r: Self)
        ensures
            r@ == poly_and(self@, rhs@),
    {
        let mut lhs = self;
        let mut rhs = rhs;
        let ghost a = lhs@;
        let ghost b = rhs@;
        lhs.align(&mut rhs, BitWrapper::zero());
        let n = lhs.data.len();
        let mut data: VecDeque<BitWrapper> = VecDeque::new();
        let mut i: usize = 0;
        while i < n
            invariant
                n == lhs.data@.len(),
                n == rhs.data@.len(),
                n == max_len(a, b),
                i <= n,
                forall|j: int| 0 <= j < n ==> lhs@[j] == coeff::<BitWrapper>(a, j),
                forall|j: int| 0 <= j < n ==> rhs@[j] == coeff::<BitWrapper>(b, j),
                data@.len() == i,
                forall|j: int| 0 <= j < i ==> data@[j]@ == poly_and(a, b)[j],
            decreases n - i,
        {
            let x = lhs.data[i];
            let y = rhs.data[i];
            assert(x@ == lhs@[i as int]);
            assert(y@ == rhs@[i as int]);
            data.push_back(x.mul(y));
            i += 1;
        }
        assert(views(data@) =~= poly_and(a, b));
        Poly { data }
    }
}

impl<T: FieldLaws> DivRem for Poly<T> {
    open spec fn zero_divisor(d: Seq<T::V>) -> bool {
        is_zero::<T>(d)
    }

    open spec fn divrem_view(a: Seq<T::V>, d: Seq<T::V>) -> (Seq<T::V>, Seq<T::V>) {
        poly_divrem::<T>(a, d)
    }

    /// Quotient and remainder by long division; division by a zero
    /// polynomial fails.  The dividend is the divisor times the quotient plus
    /// the remainder, and the remainder has no nonzero coefficient from the
    /// order of the divisor on: it is of lower order than the divisor, or
    /// zero where the divisor is a constant.
    fn divrem(self, rhs: Self) -> (r: Result<(Self, Self), DivisionByZero>)
        ensures
            r matches Ok(p) ==> {
                &&& same_poly::<T>(self@, poly_add::<T>(poly_mul::<T>(rhs@, p.0@), p.1@))
                &&& below::<T>(p.1@, order::<T>(rhs@) as int)
                &&& order::<T>(rhs@) > 0 ==> order::<T>(p.1@) < order::<T>(rhs@)
                &&& order::<T>(rhs@) == 0 ==> is_zero::<T>(p.1@)
            },
    {
        if rhs.is_zero() {
            Err(DivisionByZero)
        } else {
            proof {
                lemma_division_identity::<T>(self@, rhs@);
                lemma_divrem_below::<T>(self@, rhs@);
                lemma_order_below::<T>(poly_divrem::<T>(self@, rhs@).1, order::<T>(rhs@) as int);
            }
            Ok(self.long_division(&rhs))
        }
    }
}

impl<T: FieldLaws> Egcd for Poly<T> {
    open spec fn egcd_view(a: Seq<T::V>, b: Seq<T::V>) -> (Seq<T::V>, Seq<T::V>) {
        poly_egcd::<T>(a, b)
    }

    /// The coefficients `(s, t)` of Bézout's identity:
    /// `s * self + t * rhs` is the greatest common divisor that the
    /// Euclidean algorithm finds.
    fn egcd(self, rhs: Self) -> (r: (Self, Self))
        ensures
            same_poly::<T>(
                poly_add::<T>(poly_mul::<T>(r.0@, self@), poly_mul::<T>(r.1@, rhs@)),
                poly_gcd::<T>(self@, rhs@),
            ),
        decreases order::<T>(rhs@), nonzero_flag::<T>(rhs@),
    {
        proof {
            lemma_bezout::<T>(self@, rhs@);
        }
        if rhs.is_zero() {
            (Self::one(), Self::zero())
        } else {
            proof {
                lemma_remainder_smaller::<T>(self@, rhs@);
            }
            let (q, r) = self.long_division(&rhs);
            let (x, y) = rhs.egcd(r);
            let product = q.mul(y.clone());
            (y, x.sub(product))
        }
    }
}

impl<T: FieldLaws> ModInv for Poly<T> {
    open spec fn zero_modulus(m: Seq<T::V>) -> bool {
        is_zero::<T>(m)
    }

    open spec fn modinv_view(a: Seq<T::V>, m: Seq<T::V>) -> Seq<T::V> {
        poly_egcd::<T>(a, m).0
    }

    /// The first coefficient of the extended Euclidean algorithm; a zero
    /// modulus fails.  Where `self` and the modulus have no common divisor
    /// but one, the result is the inverse of `self`: its product with `self`
    /// leaves the remainder that one leaves.
    fn modinv(self, modulo: Self) -> (r: Result<Self, DivisionByZero>)
        ensures
            r matches Ok(v) ==> (same_poly::<T>(poly_gcd::<T>(self@, modulo@), one_poly::<T>())
                ==> same_poly::<T>(
                poly_divrem::<T>(poly_mul::<T>(v@, self@), modulo@).1,
                poly_divrem::<T>(one_poly::<T>(), modulo@).1,
            )),
    {
        if modulo.is_zero() {
            Err(DivisionByZero)
        } else {
            proof {
                if same_poly::<T>(poly_gcd::<T>(self@, modulo@), one_poly::<T>()) {
                    law_modular_inverse::<T>(self@, modulo@);
                }
            }
            Ok(self.egcd(modulo).0)
        }
    }
}

} // verus!
