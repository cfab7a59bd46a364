//! The coefficients of sums, differences, shifts and products, and what
//! follows at once: each of these operations gives the same polynomial for
//! the same polynomials, whatever sequences stand for them.
use crate::field::{lemma_mul_zero, lemma_sub_self, Field, FieldLaws};
use crate::poly_model::{
    coeff, is_zero, leading, order, poly_add, poly_mul, poly_mul_upto, poly_scale, poly_shl,
    poly_shr, poly_sub, same_poly,
};
use crate::poly_order::lemma_order;
use crate::sums::{lemma_sum_ext, lemma_sum_extend, sum};
use vstd::prelude::*;

verus! {

/// The terms whose sum is the coefficient of degree `k` of a product.
pub open spec fn conv_term<T: Field>(a: Seq<T::V>, b: Seq<T::V>, k: int) -> spec_fn(int) -> T::V {
    |j: int| T::mul_view(coeff::<T>(a, k - j), coeff::<T>(b, j))
}

/// The coefficient of degree `k` of the product of `a` and `b`: the sum of
/// `a[k - j] * b[j]` over `j` from 0 to `k`.
pub open spec fn conv<T: Field>(a: Seq<T::V>, b: Seq<T::V>, k: int) -> T::V {
    if k < 0 {
        T::zero_view()
    } else {
        sum::<T>(conv_term::<T>(a, b, k), (k + 1) as nat)
    }
}

pub proof fn lemma_coeff_add<T: FieldLaws>(a: Seq<T::V>, b: Seq<T::V>, i: int)
    ensures
        coeff::<T>(poly_add::<T>(a, b), i) == T::add_view(coeff::<T>(a, i), coeff::<T>(b, i)),
{
    T::add_zero(T::zero_view());
}

pub proof fn lemma_coeff_sub<T: FieldLaws>(a: Seq<T::V>, b: Seq<T::V>, i: int)
    ensures
        coeff::<T>(poly_sub::<T>(a, b), i) == T::sub_view(coeff::<T>(a, i), coeff::<T>(b, i)),
{
    lemma_sub_self::<T>(T::zero_view());
}

pub proof fn lemma_coeff_shl<T: Field>(a: Seq<T::V>, k: nat, i: int)
    ensures
        coeff::<T>(poly_shl::<T>(a, k), i) == coeff::<T>(a, i - k),
{
}

pub proof fn lemma_coeff_shr<T: Field>(a: Seq<T::V>, i: int)
    requires
        0 <= i,
    ensures
        coeff::<T>(poly_shr::<T>(a, 1), i) == coeff::<T>(a, i + 1),
{
}

pub proof fn lemma_coeff_scale<T: FieldLaws>(a: Seq<T::V>, c: T::V, i: int)
    ensures
        coeff::<T>(poly_scale::<T>(a, c), i) == T::mul_view(coeff::<T>(a, i), c),
{
    lemma_mul_zero::<T>(c);
}

/// The coefficients of the partial products are the partial sums of the
/// convolution.
pub proof fn lemma_coeff_mul_upto<T: FieldLaws>(a: Seq<T::V>, b: Seq<T::V>, n: nat, k: int)
    requires
        n <= b.len(),
        0 <= k,
    ensures
        coeff::<T>(poly_mul_upto::<T>(a, b, n), k) == sum::<T>(conv_term::<T>(a, b, k), n),
    decreases n,
{
    if n == 0 {
    } else {
        let before = poly_mul_upto::<T>(a, b, (n - 1) as nat);
        let scaled = poly_scale::<T>(a, b[n - 1]);
        let term = poly_shl::<T>(scaled, (n - 1) as nat);
        lemma_coeff_mul_upto::<T>(a, b, (n - 1) as nat, k);
        lemma_coeff_add::<T>(before, term, k);
        lemma_coeff_shl::<T>(scaled, (n - 1) as nat, k);
        lemma_coeff_scale::<T>(a, b[n - 1], k - (n - 1));
        assert(conv_term::<T>(a, b, k)(n - 1) == T::mul_view(
            coeff::<T>(a, k - (n - 1)),
            coeff::<T>(b, n - 1),
        ));
    }
}

/// Summing the terms of a convolution further than to `k` changes nothing.
pub proof fn lemma_conv_upto<T: FieldLaws>(a: Seq<T::V>, b: Seq<T::V>, k: int, n: nat)
    requires
        0 <= k,
        k + 1 <= n || b.len() <= n,
    ensures
        sum::<T>(conv_term::<T>(a, b, k), n) == conv::<T>(a, b, k),
{
    let f = conv_term::<T>(a, b, k);
    if k + 1 <= n {
        assert forall|j: int| k + 1 <= j < n implies #[trigger] f(j) == T::zero_view() by {
            lemma_mul_zero::<T>(coeff::<T>(b, j));
        }
        lemma_sum_extend::<T>(f, (k + 1) as nat, n);
    } else {
        assert forall|j: int| n <= j < k + 1 implies #[trigger] f(j) == T::zero_view() by {
            lemma_mul_zero::<T>(coeff::<T>(a, k - j));
        }
        lemma_sum_extend::<T>(f, n, (k + 1) as nat);
    }
}

/// The coefficient of degree `k` of a product is the convolution at `k`.
pub proof fn lemma_coeff_mul<T: FieldLaws>(a: Seq<T::V>, b: Seq<T::V>, k: int)
    ensures
        coeff::<T>(poly_mul::<T>(a, b), k) == conv::<T>(a, b, k),
{
    if k >= 0 {
        lemma_coeff_mul_upto::<T>(a, b, b.len(), k);
        lemma_conv_upto::<T>(a, b, k, b.len());
    }
}

/// Two representations of one polynomial are zero together.
pub proof fn lemma_same_is_zero<T: Field>(a: Seq<T::V>, b: Seq<T::V>)
    requires
        same_poly::<T>(a, b),
    ensures
        is_zero::<T>(a) == is_zero::<T>(b),
{
    if is_zero::<T>(a) {
        assert forall|i: int| 0 <= i < b.len() implies b[i] == T::zero_view() by {
            assert(coeff::<T>(a, i) == coeff::<T>(b, i));
        }
    }
    if is_zero::<T>(b) {
        assert forall|i: int| 0 <= i < a.len() implies a[i] == T::zero_view() by {
            assert(coeff::<T>(a, i) == coeff::<T>(b, i));
        }
    }
}

/// The order is the degree of the highest nonzero coefficient, whatever the
/// representation.
pub proof fn lemma_order_is<T: Field>(s: Seq<T::V>, n: int)
    requires
        coeff::<T>(s, n) != T::zero_view(),
        forall|i: int| n < i ==> #[trigger] coeff::<T>(s, i) == T::zero_view(),
    ensures
        order::<T>(s) == n,
{
    lemma_order::<T>(s);
    let o = order::<T>(s) as int;
    if o < n {
        assert(s[n] == T::zero_view());
    }
    if o > n {
        assert(coeff::<T>(s, o) == T::zero_view());
        assert(is_zero::<T>(s));
        assert(s[n] == T::zero_view());
    }
}

/// Two representations of one polynomial have the same order and the same
/// leading coefficient.
pub proof fn lemma_same_order<T: Field>(a: Seq<T::V>, b: Seq<T::V>)
    requires
        same_poly::<T>(a, b),
    ensures
        order::<T>(a) == order::<T>(b),
        leading::<T>(a) == leading::<T>(b),
{
    lemma_order::<T>(a);
    lemma_order::<T>(b);
    lemma_same_is_zero::<T>(a, b);
    if !is_zero::<T>(a) {
        let n = order::<T>(a) as int;
        assert(coeff::<T>(a, n) == coeff::<T>(b, n));
        assert forall|i: int| n < i implies #[trigger] coeff::<T>(b, i) == T::zero_view() by {
            assert(coeff::<T>(a, i) == coeff::<T>(b, i));
        }
        lemma_order_is::<T>(b, n);
    }
    assert(coeff::<T>(a, order::<T>(a) as int) == coeff::<T>(b, order::<T>(a) as int));
}

pub proof fn lemma_same_add<T: FieldLaws>(a: Seq<T::V>, a2: Seq<T::V>, b: Seq<T::V>, b2: Seq<T::V>)
    requires
        same_poly::<T>(a, a2),
        same_poly::<T>(b, b2),
    ensures
        same_poly::<T>(poly_add::<T>(a, b), poly_add::<T>(a2, b2)),
{
    assert forall|i: int|
        coeff::<T>(poly_add::<T>(a, b), i) == coeff::<T>(poly_add::<T>(a2, b2), i) by {
        lemma_coeff_add::<T>(a, b, i);
        lemma_coeff_add::<T>(a2, b2, i);
        assert(coeff::<T>(a, i) == coeff::<T>(a2, i));
        assert(coeff::<T>(b, i) == coeff::<T>(b2, i));
    }
}

pub proof fn lemma_same_sub<T: FieldLaws>(a: Seq<T::V>, a2: Seq<T::V>, b: Seq<T::V>, b2: Seq<T::V>)
    requires
        same_poly::<T>(a, a2),
        same_poly::<T>(b, b2),
    ensures
        same_poly::<T>(poly_sub::<T>(a, b), poly_sub::<T>(a2, b2)),
{
    assert forall|i: int|
        coeff::<T>(poly_sub::<T>(a, b), i) == coeff::<T>(poly_sub::<T>(a2, b2), i) by {
        lemma_coeff_sub::<T>(a, b, i);
        lemma_coeff_sub::<T>(a2, b2, i);
        assert(coeff::<T>(a, i) == coeff::<T>(a2, i));
        assert(coeff::<T>(b, i) == coeff::<T>(b2, i));
    }
}

pub proof fn lemma_same_shl<T: Field>(a: Seq<T::V>, a2: Seq<T::V>, k: nat)
    requires
        same_poly::<T>(a, a2),
    ensures
        same_poly::<T>(poly_shl::<T>(a, k), poly_shl::<T>(a2, k)),
{
    assert forall|i: int|
        coeff::<T>(poly_shl::<T>(a, k), i) == coeff::<T>(poly_shl::<T>(a2, k), i) by {
        lemma_coeff_shl::<T>(a, k, i);
        lemma_coeff_shl::<T>(a2, k, i);
        assert(coeff::<T>(a, i - k) == coeff::<T>(a2, i - k));
    }
}

pub proof fn lemma_same_shr<T: Field>(a: Seq<T::V>, a2: Seq<T::V>)
    requires
        same_poly::<T>(a, a2),
    ensures
        same_poly::<T>(poly_shr::<T>(a, 1), poly_shr::<T>(a2, 1)),
{
    assert forall|i: int|
        coeff::<T>(poly_shr::<T>(a, 1), i) == coeff::<T>(poly_shr::<T>(a2, 1), i) by {
        if i >= 0 {
            lemma_coeff_shr::<T>(a, i);
            lemma_coeff_shr::<T>(a2, i);
            assert(coeff::<T>(a, i + 1) == coeff::<T>(a2, i + 1));
        }
    }
}

/// Convolutions of the same polynomials are equal.
pub proof fn lemma_same_conv<T: Field>(
    a: Seq<T::V>,
    a2: Seq<T::V>,
    b: Seq<T::V>,
    b2: Seq<T::V>,
    k: int,
)
    requires
        same_poly::<T>(a, a2),
        same_poly::<T>(b, b2),
    ensures
        conv::<T>(a, b, k) == conv::<T>(a2, b2, k),
{
    if k >= 0 {
        let f = conv_term::<T>(a, b, k);
        let g = conv_term::<T>(a2, b2, k);
        assert forall|j: int| 0 <= j < k + 1 implies #[trigger] f(j) == g(j) by {
            assert(coeff::<T>(a, k - j) == coeff::<T>(a2, k - j));
            assert(coeff::<T>(b, j) == coeff::<T>(b2, j));
        }
        lemma_sum_ext::<T>(f, g, (k + 1) as nat);
    }
}

pub proof fn lemma_same_mul<T: FieldLaws>(a: Seq<T::V>, a2: Seq<T::V>, b: Seq<T::V>, b2: Seq<T::V>)
    requires
        same_poly::<T>(a, a2),
        same_poly::<T>(b, b2),
    ensures
        same_poly::<T>(poly_mul::<T>(a, b), poly_mul::<T>(a2, b2)),
{
    assert forall|i: int|
        coeff::<T>(poly_mul::<T>(a, b), i) == coeff::<T>(poly_mul::<T>(a2, b2), i) by {
        lemma_coeff_mul::<T>(a, b, i);
        lemma_coeff_mul::<T>(a2, b2, i);
        lemma_same_conv::<T>(a, a2, b, b2, i);
    }
}

} // verus!
