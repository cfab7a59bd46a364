//! The order of a polynomial, and the order of the remainder of long
//! division: it is under the order of the divisor.
use crate::field::{
    lemma_mul_zero, lemma_scaled_back, lemma_sub_self, lemma_zero_add, Field, FieldLaws,
};
use crate::poly_model::{
    below, coeff, constant, depth, divrem_step, is_zero, leading, order, poly_add, poly_divrem,
    poly_mul, poly_mul_upto, poly_scale, poly_shl, poly_shr, poly_sub, poly_sub_item, zero_poly,
};
use vstd::prelude::*;

verus! {

/// The order lies inside the sequence, nothing above it is nonzero, and the
/// coefficient at it is nonzero unless the polynomial is zero.
pub proof fn lemma_order<T: Field>(s: Seq<T::V>)
    ensures
        s.len() == 0 ==> order::<T>(s) == 0,
        s.len() > 0 ==> order::<T>(s) < s.len(),
        forall|i: int| order::<T>(s) < i < s.len() ==> s[i] == T::zero_view(),
        is_zero::<T>(s) <==> leading::<T>(s) == T::zero_view(),
        is_zero::<T>(s) ==> order::<T>(s) == 0,
    decreases s.len(),
{
    if s.len() == 0 {
    } else if s.last() != T::zero_view() {
    } else {
        let t = s.drop_last();
        lemma_order::<T>(t);
        assert forall|i: int| order::<T>(s) < i < s.len() implies s[i] == T::zero_view() by {
            if i < t.len() {
                assert(t[i] == s[i]);
            }
        }
        if is_zero::<T>(s) {
            assert forall|i: int| 0 <= i < t.len() implies t[i] == T::zero_view() by {
                assert(t[i] == s[i]);
            }
        }
        if is_zero::<T>(t) {
            assert forall|i: int| 0 <= i < s.len() implies s[i] == T::zero_view() by {
                if i < t.len() {
                    assert(t[i] == s[i]);
                }
            }
        }
        if t.len() > 0 {
            assert(t[order::<T>(t) as int] == s[order::<T>(t) as int]);
        }
    }
}

/// A polynomial with no nonzero coefficient from degree `n` on has an order
/// under `n`, or is zero if `n` is 0.
pub proof fn lemma_order_below<T: Field>(s: Seq<T::V>, n: int)
    requires
        below::<T>(s, n),
        0 <= n,
    ensures
        n > 0 ==> order::<T>(s) < n,
        n == 0 ==> is_zero::<T>(s),
{
    lemma_order::<T>(s);
    if n > 0 && order::<T>(s) >= n {
        assert(s[order::<T>(s) as int] == T::zero_view());
        assert(is_zero::<T>(s));
    }
}

/// Nothing at or above a degree beyond the order is nonzero.
pub proof fn lemma_below_from_order<T: Field>(s: Seq<T::V>, n: int)
    requires
        order::<T>(s) < n,
    ensures
        below::<T>(s, n),
{
    lemma_order::<T>(s);
}

/// The product with a constant polynomial scales every coefficient.
pub proof fn lemma_mul_constant<T: FieldLaws>(d: Seq<T::V>, c: T::V)
    ensures
        poly_mul::<T>(d, constant::<T>(c)).len() == (if d.len() >= 1 {
            d.len()
        } else {
            1
        }),
        forall|i: int|
            #![trigger coeff::<T>(poly_mul::<T>(d, constant::<T>(c)), i)]
            coeff::<T>(poly_mul::<T>(d, constant::<T>(c)), i) == T::mul_view(coeff::<T>(d, i), c),
{
    let k = constant::<T>(c);
    let m = poly_mul::<T>(d, k);
    let t = poly_shl::<T>(poly_scale::<T>(d, c), 0);
    assert(poly_mul_upto::<T>(d, k, 0) == zero_poly::<T>());
    assert(m == poly_add::<T>(zero_poly::<T>(), t));
    assert(t =~= poly_scale::<T>(d, c));
    assert forall|i: int| coeff::<T>(m, i) == T::mul_view(coeff::<T>(d, i), c) by {
        lemma_mul_zero::<T>(c);
        if 0 <= i < m.len() {
            lemma_zero_add::<T>(coeff::<T>(t, i));
        }
    }
}

/// One step of long division keeps the remainder under the order of the divisor.
pub proof fn lemma_step_below<T: FieldLaws>(
    q: Seq<T::V>,
    r: Seq<T::V>,
    low: Seq<T::V>,
    d: Seq<T::V>,
)
    requires
        !is_zero::<T>(d),
        below::<T>(r, order::<T>(d) as int),
        low.len() == 1,
    ensures
        below::<T>(divrem_step::<T>(q, r, low, d).1, order::<T>(d) as int),
{
    let n = order::<T>(d) as int;
    let z = T::zero_view();
    let r1 = poly_add::<T>(poly_shl::<T>(r, 1), low);
    T::add_zero(z);
    assert(below::<T>(r1, n + 1)) by {
        assert forall|i: int| n + 1 <= i < r1.len() implies r1[i] == z by {
            if i - 1 < r.len() {
                assert(poly_shl::<T>(r, 1)[i] == r[i - 1]);
            }
        }
    }
    lemma_order::<T>(r1);
    lemma_order::<T>(d);
    if order::<T>(r1) >= n {
        assert(order::<T>(r1) == n) by {
            if order::<T>(r1) > n {
                assert(r1[order::<T>(r1) as int] == z);
            }
        }
        let c = T::mul_view(T::div_view(T::one_view(), leading::<T>(d)), leading::<T>(r1));
        let m = poly_mul::<T>(d, constant::<T>(c));
        let r2 = poly_sub::<T>(r1, m);
        lemma_mul_constant::<T>(d, c);
        assert forall|i: int| n <= i < r2.len() implies r2[i] == z by {
            assert(coeff::<T>(m, i) == T::mul_view(coeff::<T>(d, i), c));
            if i == n {
                lemma_scaled_back::<T>(leading::<T>(d), leading::<T>(r1));
                lemma_sub_self::<T>(coeff::<T>(r1, n));
            } else {
                lemma_mul_zero::<T>(c);
                lemma_sub_self::<T>(z);
            }
        }
    } else {
        lemma_below_from_order::<T>(r1, n);
    }
}

/// The remainder of long division by a nonzero polynomial has no nonzero
/// coefficient at or above the order of the divisor.
pub proof fn lemma_divrem_below<T: FieldLaws>(a: Seq<T::V>, d: Seq<T::V>)
    requires
        !is_zero::<T>(d),
    ensures
        below::<T>(poly_divrem::<T>(a, d).1, order::<T>(d) as int),
    decreases depth::<T>(a),
{
    if is_zero::<T>(a) {
    } else {
        let rest = poly_divrem::<T>(poly_shr::<T>(a, 1), d);
        lemma_divrem_below::<T>(poly_shr::<T>(a, 1), d);
        assert(poly_sub_item::<T>(a, 0) =~= constant::<T>(a[0]));
        lemma_step_below::<T>(rest.0, rest.1, poly_sub_item::<T>(a, 0), d);
    }
}

/// The remainder by a nonzero polynomial is of lower order than the divisor,
/// or is zero where the divisor is a constant.
pub proof fn lemma_remainder_smaller<T: FieldLaws>(a: Seq<T::V>, d: Seq<T::V>)
    requires
        !is_zero::<T>(d),
    ensures
        order::<T>(poly_divrem::<T>(a, d).1) < order::<T>(d) || (order::<T>(d) == 0
            && order::<T>(poly_divrem::<T>(a, d).1) == 0 && is_zero::<T>(poly_divrem::<T>(a, d).1)),
{
    let r = poly_divrem::<T>(a, d).1;
    lemma_divrem_below::<T>(a, d);
    lemma_order_below::<T>(r, order::<T>(d) as int);
    lemma_order::<T>(r);
}

} // verus!
