//! Long division and the extended Euclidean algorithm give the same
//! polynomials for the same polynomials, whatever sequences stand for them.
use crate::field::FieldLaws;
use crate::poly_coeff::{
    lemma_same_add, lemma_same_is_zero, lemma_same_mul, lemma_same_order, lemma_same_shl,
    lemma_same_shr, lemma_same_sub,
};
use crate::poly_model::{
    coeff, constant, depth, divrem_step, is_zero, leading, order, poly_add, poly_divrem, poly_egcd,
    poly_mul, poly_shl, poly_shr, poly_sub_item, same_poly,
};
use crate::poly_order::lemma_remainder_smaller;
use vstd::prelude::*;

verus! {

/// One step of long division gives the same polynomials for the same polynomials.
pub proof fn lemma_same_step<T: FieldLaws>(
    q: Seq<T::V>,
    q2: Seq<T::V>,
    r: Seq<T::V>,
    r2: Seq<T::V>,
    low: Seq<T::V>,
    low2: Seq<T::V>,
    d: Seq<T::V>,
    d2: Seq<T::V>,
)
    requires
        same_poly::<T>(q, q2),
        same_poly::<T>(r, r2),
        same_poly::<T>(low, low2),
        same_poly::<T>(d, d2),
    ensures
        same_poly::<T>(divrem_step::<T>(q, r, low, d).0, divrem_step::<T>(q2, r2, low2, d2).0),
        same_poly::<T>(divrem_step::<T>(q, r, low, d).1, divrem_step::<T>(q2, r2, low2, d2).1),
{
    let q1 = poly_shl::<T>(q, 1);
    let q12 = poly_shl::<T>(q2, 1);
    let r1 = poly_add::<T>(poly_shl::<T>(r, 1), low);
    let r12 = poly_add::<T>(poly_shl::<T>(r2, 1), low2);
    lemma_same_shl::<T>(q, q2, 1);
    lemma_same_shl::<T>(r, r2, 1);
    lemma_same_add::<T>(poly_shl::<T>(r, 1), poly_shl::<T>(r2, 1), low, low2);
    lemma_same_order::<T>(r1, r12);
    lemma_same_order::<T>(d, d2);
    if order::<T>(r1) >= order::<T>(d) {
        let c = T::mul_view(T::div_view(T::one_view(), leading::<T>(d)), leading::<T>(r1));
        let k = constant::<T>(c);
        lemma_same_add::<T>(q1, q12, k, k);
        lemma_same_mul::<T>(d, d2, k, k);
        lemma_same_sub::<T>(r1, r12, poly_mul::<T>(d, k), poly_mul::<T>(d2, k));
    }
}

/// Long division gives the same polynomials for the same polynomials.
pub proof fn lemma_same_divrem<T: FieldLaws>(
    a: Seq<T::V>,
    a2: Seq<T::V>,
    d: Seq<T::V>,
    d2: Seq<T::V>,
)
    requires
        same_poly::<T>(a, a2),
        same_poly::<T>(d, d2),
    ensures
        same_poly::<T>(poly_divrem::<T>(a, d).0, poly_divrem::<T>(a2, d2).0),
        same_poly::<T>(poly_divrem::<T>(a, d).1, poly_divrem::<T>(a2, d2).1),
    decreases depth::<T>(a),
{
    lemma_same_is_zero::<T>(a, a2);
    if is_zero::<T>(a) {
    } else {
        let rest = poly_divrem::<T>(poly_shr::<T>(a, 1), d);
        let rest2 = poly_divrem::<T>(poly_shr::<T>(a2, 1), d2);
        lemma_same_shr::<T>(a, a2);
        lemma_same_divrem::<T>(poly_shr::<T>(a, 1), poly_shr::<T>(a2, 1), d, d2);
        let low = poly_sub_item::<T>(a, 0);
        let low2 = poly_sub_item::<T>(a2, 0);
        assert(low =~= constant::<T>(a[0]));
        assert(low2 =~= constant::<T>(a2[0]));
        assert(coeff::<T>(a, 0) == coeff::<T>(a2, 0));
        lemma_same_step::<T>(rest.0, rest2.0, rest.1, rest2.1, low, low2, d, d2);
    }
}

/// The extended Euclidean algorithm gives the same polynomials for the same
/// polynomials.
pub proof fn lemma_same_egcd<T: FieldLaws>(
    a: Seq<T::V>,
    a2: Seq<T::V>,
    b: Seq<T::V>,
    b2: Seq<T::V>,
)
    requires
        same_poly::<T>(a, a2),
        same_poly::<T>(b, b2),
    ensures
        same_poly::<T>(poly_egcd::<T>(a, b).0, poly_egcd::<T>(a2, b2).0),
        same_poly::<T>(poly_egcd::<T>(a, b).1, poly_egcd::<T>(a2, b2).1),
    decreases order::<T>(b), crate::poly_model::nonzero_flag::<T>(b),
{
    lemma_same_is_zero::<T>(b, b2);
    if is_zero::<T>(b) {
    } else {
        lemma_remainder_smaller::<T>(a, b);
        let qr = poly_divrem::<T>(a, b);
        let qr2 = poly_divrem::<T>(a2, b2);
        lemma_same_divrem::<T>(a, a2, b, b2);
        lemma_same_egcd::<T>(b, b2, qr.1, qr2.1);
        let xy = poly_egcd::<T>(b, qr.1);
        let xy2 = poly_egcd::<T>(b2, qr2.1);
        lemma_same_mul::<T>(qr.0, qr2.0, xy.1, xy2.1);
        lemma_same_sub::<T>(
            xy.0,
            xy2.0,
            poly_mul::<T>(qr.0, xy.1),
            poly_mul::<T>(qr2.0, xy2.1),
        );
    }
}

} // verus!
