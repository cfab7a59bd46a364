//! The division identity, the uniqueness of quotient and remainder, and how
//! remainders behave under sums and products.
use crate::field::{
    lemma_add_cancel, lemma_add_sub_cancel, lemma_mul_nonzero, lemma_mul_zero, lemma_zero_add,
    FieldLaws,
};
use crate::poly_coeff::{
    conv, conv_term, lemma_coeff_add, lemma_coeff_mul, lemma_coeff_shl, lemma_coeff_shr,
    lemma_coeff_sub, lemma_order_is, lemma_same_add, lemma_same_mul,
};
use crate::poly_congruence::lemma_same_divrem;
use crate::poly_laws::{
    lemma_add_assoc, lemma_add_zero, lemma_conv_shl, lemma_mul_assoc, lemma_mul_distrib,
    lemma_mul_distrib_left, lemma_mul_zero_poly, lemma_sub_add,
};
use crate::poly_model::{
    below, coeff, constant, depth, divrem_step, is_zero, leading, order, poly_add, poly_divrem,
    poly_mul, poly_shl, poly_shr, poly_sub, poly_sub_item, same_poly, zero_poly,
};
use crate::poly_order::{lemma_divrem_below, lemma_order, lemma_order_below};
use crate::sums::{lemma_sum_single, lemma_sum_zero};
use vstd::prelude::*;

verus! {

/// One step of long division keeps the division identity: if `prev` is
/// `d * q + r`, then `x * prev + low` is `d * q' + r'` for the quotient and
/// remainder after the step.
pub proof fn lemma_step_identity<T: FieldLaws>(
    prev: Seq<T::V>,
    q: Seq<T::V>,
    r: Seq<T::V>,
    low: Seq<T::V>,
    d: Seq<T::V>,
)
    requires
        same_poly::<T>(prev, poly_add::<T>(poly_mul::<T>(d, q), r)),
    ensures
        same_poly::<T>(
            poly_add::<T>(poly_shl::<T>(prev, 1), low),
            poly_add::<T>(
                poly_mul::<T>(d, divrem_step::<T>(q, r, low, d).0),
                divrem_step::<T>(q, r, low, d).1,
            ),
        ),
{
    let q1 = poly_shl::<T>(q, 1);
    let r1 = poly_add::<T>(poly_shl::<T>(r, 1), low);
    let target = poly_add::<T>(poly_shl::<T>(prev, 1), low);
    let s = divrem_step::<T>(q, r, low, d);
    let result = poly_add::<T>(poly_mul::<T>(d, s.0), s.1);
    assert forall|k: int| coeff::<T>(target, k) == coeff::<T>(result, k) by {
        lemma_coeff_add::<T>(poly_shl::<T>(prev, 1), low, k);
        lemma_coeff_shl::<T>(prev, 1, k);
        assert(coeff::<T>(prev, k - 1) == coeff::<T>(
            poly_add::<T>(poly_mul::<T>(d, q), r),
            k - 1,
        ));
        lemma_coeff_add::<T>(poly_mul::<T>(d, q), r, k - 1);
        lemma_coeff_mul::<T>(d, q, k - 1);
        lemma_coeff_mul::<T>(d, q1, k);
        lemma_conv_shl::<T>(d, q, k);
        lemma_coeff_add::<T>(poly_shl::<T>(r, 1), low, k);
        lemma_coeff_shl::<T>(r, 1, k);
        T::add_associative(conv::<T>(d, q, k - 1), coeff::<T>(r, k - 1), coeff::<T>(low, k));
        assert(coeff::<T>(target, k) == T::add_view(
            coeff::<T>(poly_mul::<T>(d, q1), k),
            coeff::<T>(r1, k),
        ));
        if order::<T>(r1) >= order::<T>(d) {
            let c = T::mul_view(T::div_view(T::one_view(), leading::<T>(d)), leading::<T>(r1));
            let kc = constant::<T>(c);
            let m = poly_mul::<T>(d, kc);
            lemma_coeff_add::<T>(poly_mul::<T>(d, poly_add::<T>(q1, kc)), poly_sub::<T>(r1, m), k);
            lemma_mul_distrib::<T>(d, q1, kc);
            assert(coeff::<T>(poly_mul::<T>(d, poly_add::<T>(q1, kc)), k) == coeff::<T>(
                poly_add::<T>(poly_mul::<T>(d, q1), m),
                k,
            ));
            lemma_coeff_add::<T>(poly_mul::<T>(d, q1), m, k);
            lemma_coeff_sub::<T>(r1, m, k);
            lemma_add_sub_cancel::<T>(
                coeff::<T>(poly_mul::<T>(d, q1), k),
                coeff::<T>(m, k),
                coeff::<T>(r1, k),
            );
        } else {
            lemma_coeff_add::<T>(poly_mul::<T>(d, q1), r1, k);
        }
    }
}

/// A polynomial is `x` times itself without its lowest term, plus that term.
pub proof fn lemma_split_lowest<T: FieldLaws>(a: Seq<T::V>)
    requires
        a.len() > 0,
    ensures
        same_poly::<T>(
            a,
            poly_add::<T>(poly_shl::<T>(poly_shr::<T>(a, 1), 1), poly_sub_item::<T>(a, 0)),
        ),
{
    let rest = poly_shr::<T>(a, 1);
    let low = poly_sub_item::<T>(a, 0);
    assert(low =~= constant::<T>(a[0]));
    let whole = poly_add::<T>(poly_shl::<T>(rest, 1), low);
    assert forall|k: int| coeff::<T>(a, k) == coeff::<T>(whole, k) by {
        lemma_coeff_add::<T>(poly_shl::<T>(rest, 1), low, k);
        lemma_coeff_shl::<T>(rest, 1, k);
        if k >= 1 {
            lemma_coeff_shr::<T>(a, k - 1);
            T::add_zero(coeff::<T>(a, k));
        } else {
            lemma_zero_add::<T>(coeff::<T>(low, k));
        }
    }
}

/// The division identity: the dividend is the divisor times the quotient,
/// plus the remainder.
pub proof fn lemma_division_identity<T: FieldLaws>(a: Seq<T::V>, d: Seq<T::V>)
    ensures
        same_poly::<T>(
            a,
            poly_add::<T>(poly_mul::<T>(d, poly_divrem::<T>(a, d).0), poly_divrem::<T>(a, d).1),
        ),
    decreases depth::<T>(a),
{
    if is_zero::<T>(a) {
        let z = zero_poly::<T>();
        lemma_mul_zero_poly::<T>(d, z);
        lemma_add_zero::<T>(poly_mul::<T>(d, z), z);
        let whole = poly_add::<T>(poly_mul::<T>(d, z), z);
        assert forall|k: int| coeff::<T>(a, k) == coeff::<T>(whole, k) by {
            assert(coeff::<T>(whole, k) == coeff::<T>(poly_mul::<T>(d, z), k));
        }
    } else {
        let prev = poly_shr::<T>(a, 1);
        let rest = poly_divrem::<T>(prev, d);
        lemma_division_identity::<T>(prev, d);
        lemma_step_identity::<T>(prev, rest.0, rest.1, poly_sub_item::<T>(a, 0), d);
        lemma_split_lowest::<T>(a);
    }
}

/// No coefficient above the order is nonzero.
pub proof fn lemma_above_order<T: FieldLaws>(s: Seq<T::V>, i: int)
    requires
        order::<T>(s) < i,
    ensures
        coeff::<T>(s, i) == T::zero_view(),
{
    lemma_order::<T>(s);
}

/// The convolution at the sum of the orders is the product of the leading
/// coefficients, and above it the convolution is zero.
pub proof fn lemma_conv_leading<T: FieldLaws>(u: Seq<T::V>, v: Seq<T::V>, k: int)
    requires
        order::<T>(u) + order::<T>(v) <= k,
    ensures
        conv::<T>(u, v, k) == (if k == order::<T>(u) + order::<T>(v) {
            T::mul_view(leading::<T>(u), leading::<T>(v))
        } else {
            T::zero_view()
        }),
{
    let n = order::<T>(u) as int;
    let m = order::<T>(v) as int;
    let f = conv_term::<T>(u, v, k);
    assert forall|j: int| 0 <= j < k + 1 && j != m implies #[trigger] f(j) == T::zero_view() by {
        if j > m {
            lemma_above_order::<T>(v, j);
            lemma_mul_zero::<T>(coeff::<T>(u, k - j));
        } else {
            lemma_above_order::<T>(u, k - j);
            lemma_mul_zero::<T>(coeff::<T>(v, j));
        }
    }
    if k == n + m {
        lemma_sum_single::<T>(f, (k + 1) as nat, m);
    } else {
        lemma_above_order::<T>(u, k - m);
        lemma_mul_zero::<T>(coeff::<T>(v, m));
        lemma_sum_zero::<T>(f, (k + 1) as nat);
    }
}

/// The order of a product of nonzero polynomials is the sum of the orders
/// of the factors, and its leading coefficient the product of theirs.
pub proof fn lemma_mul_order<T: FieldLaws>(u: Seq<T::V>, v: Seq<T::V>)
    requires
        !is_zero::<T>(u),
        !is_zero::<T>(v),
    ensures
        order::<T>(poly_mul::<T>(u, v)) == order::<T>(u) + order::<T>(v),
        leading::<T>(poly_mul::<T>(u, v)) == T::mul_view(leading::<T>(u), leading::<T>(v)),
        !is_zero::<T>(poly_mul::<T>(u, v)),
{
    let p = poly_mul::<T>(u, v);
    let top = order::<T>(u) + order::<T>(v);
    lemma_order::<T>(u);
    lemma_order::<T>(v);
    lemma_mul_nonzero::<T>(leading::<T>(u), leading::<T>(v));
    lemma_coeff_mul::<T>(u, v, top as int);
    lemma_conv_leading::<T>(u, v, top as int);
    assert forall|i: int| top < i implies #[trigger] coeff::<T>(p, i) == T::zero_view() by {
        lemma_coeff_mul::<T>(u, v, i);
        lemma_conv_leading::<T>(u, v, i);
    }
    lemma_order_is::<T>(p, top as int);
    lemma_order::<T>(p);
}

/// Quotient and remainder are unique: whatever `q` and `r` satisfy the
/// division identity, with `r` under the order of the divisor, are the
/// quotient and the remainder of long division.
pub proof fn lemma_division_unique<T: FieldLaws>(
    a: Seq<T::V>,
    d: Seq<T::V>,
    q: Seq<T::V>,
    r: Seq<T::V>,
)
    requires
        !is_zero::<T>(d),
        same_poly::<T>(a, poly_add::<T>(poly_mul::<T>(d, q), r)),
        below::<T>(r, order::<T>(d) as int),
    ensures
        same_poly::<T>(q, poly_divrem::<T>(a, d).0),
        same_poly::<T>(r, poly_divrem::<T>(a, d).1),
{
    let q0 = poly_divrem::<T>(a, d).0;
    let r0 = poly_divrem::<T>(a, d).1;
    let n = order::<T>(d) as int;
    lemma_division_identity::<T>(a, d);
    lemma_divrem_below::<T>(a, d);
    let e = poly_sub::<T>(q, q0);
    lemma_sub_add::<T>(q, q0);
    // d * q = d * e + d * q0
    lemma_mul_distrib::<T>(d, e, q0);
    lemma_same_mul::<T>(d, d, poly_add::<T>(e, q0), q);
    let de = poly_mul::<T>(d, e);
    // for every k: de[k] + r[k] == r0[k]
    assert forall|k: int|
        T::add_view(#[trigger] coeff::<T>(de, k), coeff::<T>(r, k)) == coeff::<T>(r0, k) by {
        let x = coeff::<T>(de, k);
        let y = coeff::<T>(poly_mul::<T>(d, q0), k);
        assert(coeff::<T>(a, k) == coeff::<T>(poly_add::<T>(poly_mul::<T>(d, q), r), k));
        assert(coeff::<T>(a, k) == coeff::<T>(poly_add::<T>(poly_mul::<T>(d, q0), r0), k));
        lemma_coeff_add::<T>(poly_mul::<T>(d, q), r, k);
        lemma_coeff_add::<T>(poly_mul::<T>(d, q0), r0, k);
        assert(coeff::<T>(poly_mul::<T>(d, q), k) == coeff::<T>(
            poly_add::<T>(de, poly_mul::<T>(d, q0)),
            k,
        ));
        lemma_coeff_add::<T>(de, poly_mul::<T>(d, q0), k);
        // (x + y) + r == y + r0
        T::add_commutative(x, y);
        T::add_associative(y, x, coeff::<T>(r, k));
        T::add_commutative(y, T::add_view(x, coeff::<T>(r, k)));
        T::add_commutative(y, coeff::<T>(r0, k));
        lemma_add_cancel::<T>(T::add_view(x, coeff::<T>(r, k)), coeff::<T>(r0, k), y);
    }
    if !is_zero::<T>(e) {
        let m = order::<T>(e) as int;
        lemma_order::<T>(e);
        lemma_order::<T>(d);
        lemma_mul_order::<T>(d, e);
        lemma_order::<T>(de);
        // leading coefficient of d * e sits at n + m, where r and r0 are zero
        assert(coeff::<T>(de, n + m) != T::zero_view());
        assert(coeff::<T>(r, n + m) == T::zero_view());
        assert(coeff::<T>(r0, n + m) == T::zero_view());
        T::add_zero(coeff::<T>(de, n + m));
        assert(false);
    }
    lemma_mul_zero_poly::<T>(d, e);
    assert forall|k: int| coeff::<T>(r, k) == coeff::<T>(r0, k) by {
        assert(coeff::<T>(de, k) == T::zero_view());
        lemma_zero_add::<T>(coeff::<T>(r, k));
    }
    lemma_add_zero::<T>(q0, e);
}

/// A polynomial under the order of the divisor is its own remainder.
pub proof fn lemma_remainder_of_small<T: FieldLaws>(a: Seq<T::V>, d: Seq<T::V>)
    requires
        !is_zero::<T>(d),
        below::<T>(a, order::<T>(d) as int),
    ensures
        same_poly::<T>(poly_divrem::<T>(a, d).1, a),
{
    let z = zero_poly::<T>();
    lemma_mul_zero_poly::<T>(d, z);
    lemma_add_zero::<T>(a, poly_mul::<T>(d, z));
    lemma_division_unique::<T>(a, d, z, a);
}

/// Adding a multiple of the divisor does not change the remainder.
pub proof fn lemma_remainder_add_multiple<T: FieldLaws>(a: Seq<T::V>, t: Seq<T::V>, d: Seq<T::V>)
    requires
        !is_zero::<T>(d),
    ensures
        same_poly::<T>(
            poly_divrem::<T>(poly_add::<T>(poly_mul::<T>(d, t), a), d).1,
            poly_divrem::<T>(a, d).1,
        ),
{
    let q = poly_divrem::<T>(a, d).0;
    let r = poly_divrem::<T>(a, d).1;
    lemma_division_identity::<T>(a, d);
    lemma_divrem_below::<T>(a, d);
    let dt = poly_mul::<T>(d, t);
    let dq = poly_mul::<T>(d, q);
    // d*t + a = d*t + (d*q + r) = (d*t + d*q) + r = d*(t + q) + r
    lemma_same_add::<T>(dt, dt, a, poly_add::<T>(dq, r));
    lemma_add_assoc::<T>(dt, dq, r);
    lemma_mul_distrib::<T>(d, t, q);
    lemma_same_add::<T>(poly_mul::<T>(d, poly_add::<T>(t, q)), poly_add::<T>(dt, dq), r, r);
    lemma_division_unique::<T>(poly_add::<T>(dt, a), d, poly_add::<T>(t, q), r);
}

/// The remainder of a sum is the sum of the remainders.
pub proof fn lemma_remainder_add<T: FieldLaws>(a: Seq<T::V>, b: Seq<T::V>, d: Seq<T::V>)
    requires
        !is_zero::<T>(d),
    ensures
        same_poly::<T>(
            poly_divrem::<T>(poly_add::<T>(a, b), d).1,
            poly_add::<T>(poly_divrem::<T>(a, d).1, poly_divrem::<T>(b, d).1),
        ),
{
    let qa = poly_divrem::<T>(a, d).0;
    let ra = poly_divrem::<T>(a, d).1;
    let qb = poly_divrem::<T>(b, d).0;
    let rb = poly_divrem::<T>(b, d).1;
    let n = order::<T>(d) as int;
    lemma_division_identity::<T>(a, d);
    lemma_division_identity::<T>(b, d);
    lemma_divrem_below::<T>(a, d);
    lemma_divrem_below::<T>(b, d);
    let q = poly_add::<T>(qa, qb);
    let r = poly_add::<T>(ra, rb);
    assert(below::<T>(r, n)) by {
        assert forall|i: int| n <= i < r.len() implies r[i] == T::zero_view() by {
            lemma_coeff_add::<T>(ra, rb, i);
            T::add_zero(T::zero_view());
        }
    }
    lemma_mul_distrib::<T>(d, qa, qb);
    let whole = poly_add::<T>(poly_mul::<T>(d, q), r);
    assert forall|k: int| coeff::<T>(poly_add::<T>(a, b), k) == coeff::<T>(whole, k) by {
        lemma_coeff_add::<T>(a, b, k);
        assert(coeff::<T>(a, k) == coeff::<T>(poly_add::<T>(poly_mul::<T>(d, qa), ra), k));
        assert(coeff::<T>(b, k) == coeff::<T>(poly_add::<T>(poly_mul::<T>(d, qb), rb), k));
        lemma_coeff_add::<T>(poly_mul::<T>(d, qa), ra, k);
        lemma_coeff_add::<T>(poly_mul::<T>(d, qb), rb, k);
        lemma_coeff_add::<T>(poly_mul::<T>(d, q), r, k);
        assert(coeff::<T>(poly_mul::<T>(d, q), k) == coeff::<T>(
            poly_add::<T>(poly_mul::<T>(d, qa), poly_mul::<T>(d, qb)),
            k,
        ));
        lemma_coeff_add::<T>(poly_mul::<T>(d, qa), poly_mul::<T>(d, qb), k);
        lemma_coeff_add::<T>(ra, rb, k);
        crate::sums::lemma_add_interchange::<T>(
            coeff::<T>(poly_mul::<T>(d, qa), k),
            coeff::<T>(ra, k),
            coeff::<T>(poly_mul::<T>(d, qb), k),
            coeff::<T>(rb, k),
        );
    }
    lemma_division_unique::<T>(poly_add::<T>(a, b), d, q, r);
}

/// In a product, a factor can be replaced by its remainder without changing
/// the remainder of the product.
pub proof fn lemma_remainder_mul<T: FieldLaws>(a: Seq<T::V>, b: Seq<T::V>, d: Seq<T::V>)
    requires
        !is_zero::<T>(d),
    ensures
        same_poly::<T>(
            poly_divrem::<T>(poly_mul::<T>(a, b), d).1,
            poly_divrem::<T>(poly_mul::<T>(poly_divrem::<T>(a, d).1, b), d).1,
        ),
{
    let qa = poly_divrem::<T>(a, d).0;
    let ra = poly_divrem::<T>(a, d).1;
    lemma_division_identity::<T>(a, d);
    // a * b = (d*qa + ra) * b = (d*qa)*b + ra*b = d*(qa*b) + ra*b
    let dqa = poly_mul::<T>(d, qa);
    lemma_same_mul::<T>(a, poly_add::<T>(dqa, ra), b, b);
    lemma_mul_distrib_left::<T>(dqa, ra, b);
    lemma_mul_assoc::<T>(d, qa, b);
    let t = poly_mul::<T>(qa, b);
    let rab = poly_mul::<T>(ra, b);
    lemma_same_add::<T>(poly_mul::<T>(dqa, b), poly_mul::<T>(d, t), rab, rab);
    let shifted = poly_add::<T>(poly_mul::<T>(d, t), rab);
    assert(same_poly::<T>(poly_mul::<T>(a, b), shifted));
    lemma_same_divrem::<T>(poly_mul::<T>(a, b), shifted, d, d);
    lemma_remainder_add_multiple::<T>(rab, t, d);
}

/// Long division by a nonzero polynomial: the dividend is the divisor
/// times the quotient plus the remainder, and the remainder is of lower
/// order than the divisor, or zero where the divisor is a constant.
pub proof fn law_long_division<T: FieldLaws>(p: Seq<T::V>, q: Seq<T::V>)
    requires
        !is_zero::<T>(q),
    ensures
        same_poly::<T>(
            p,
            poly_add::<T>(poly_mul::<T>(q, poly_divrem::<T>(p, q).0), poly_divrem::<T>(p, q).1),
        ),
        order::<T>(q) > 0 ==> order::<T>(poly_divrem::<T>(p, q).1) < order::<T>(q),
        order::<T>(q) == 0 ==> is_zero::<T>(poly_divrem::<T>(p, q).1),
{
    lemma_division_identity::<T>(p, q);
    lemma_divrem_below::<T>(p, q);
    lemma_order_below::<T>(poly_divrem::<T>(p, q).1, order::<T>(q) as int);
}

} // verus!
