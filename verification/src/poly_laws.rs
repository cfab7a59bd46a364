//! The laws of a commutative ring for polynomials over a field, each stated
//! of the polynomials that sequences stand for.
use crate::field::{lemma_mul_zero, lemma_zero_add, FieldLaws};
use crate::poly_coeff::{
    conv, conv_term, lemma_coeff_add, lemma_coeff_mul, lemma_coeff_shl, lemma_coeff_sub,
    lemma_conv_upto,
};
use crate::poly_model::{
    coeff, constant, is_zero, one_poly, poly_add, poly_mul, poly_shl, poly_sub, same_poly,
};
use crate::poly_order::lemma_mul_constant;
use crate::sums::{
    lemma_sum_add, lemma_sum_ext, lemma_sum_extend, lemma_sum_reverse, lemma_sum_scale,
    lemma_sum_shift, lemma_sum_swap, lemma_sum_zero, sum,
};
use vstd::prelude::*;

verus! {

/// `a + b = b + a`.
pub proof fn lemma_add_comm<T: FieldLaws>(a: Seq<T::V>, b: Seq<T::V>)
    ensures
        same_poly::<T>(poly_add::<T>(a, b), poly_add::<T>(b, a)),
{
    assert forall|i: int|
        coeff::<T>(poly_add::<T>(a, b), i) == coeff::<T>(poly_add::<T>(b, a), i) by {
        lemma_coeff_add::<T>(a, b, i);
        lemma_coeff_add::<T>(b, a, i);
        T::add_commutative(coeff::<T>(a, i), coeff::<T>(b, i));
    }
}

/// `(a + b) + c = a + (b + c)`.
pub proof fn lemma_add_assoc<T: FieldLaws>(a: Seq<T::V>, b: Seq<T::V>, c: Seq<T::V>)
    ensures
        same_poly::<T>(
            poly_add::<T>(poly_add::<T>(a, b), c),
            poly_add::<T>(a, poly_add::<T>(b, c)),
        ),
{
    let l = poly_add::<T>(poly_add::<T>(a, b), c);
    let r = poly_add::<T>(a, poly_add::<T>(b, c));
    assert forall|i: int| coeff::<T>(l, i) == coeff::<T>(r, i) by {
        lemma_coeff_add::<T>(poly_add::<T>(a, b), c, i);
        lemma_coeff_add::<T>(a, b, i);
        lemma_coeff_add::<T>(a, poly_add::<T>(b, c), i);
        lemma_coeff_add::<T>(b, c, i);
        T::add_associative(coeff::<T>(a, i), coeff::<T>(b, i), coeff::<T>(c, i));
    }
}

/// `a + 0 = a` and `0 + a = a`.
pub proof fn lemma_add_zero<T: FieldLaws>(a: Seq<T::V>, z: Seq<T::V>)
    requires
        is_zero::<T>(z),
    ensures
        same_poly::<T>(poly_add::<T>(a, z), a),
        same_poly::<T>(poly_add::<T>(z, a), a),
{
    assert forall|i: int| coeff::<T>(poly_add::<T>(a, z), i) == coeff::<T>(a, i) by {
        lemma_coeff_add::<T>(a, z, i);
        T::add_zero(coeff::<T>(a, i));
    }
    assert forall|i: int| coeff::<T>(poly_add::<T>(z, a), i) == coeff::<T>(a, i) by {
        lemma_coeff_add::<T>(z, a, i);
        lemma_zero_add::<T>(coeff::<T>(a, i));
    }
}

/// `(a - b) + b = a`.
pub proof fn lemma_sub_add<T: FieldLaws>(a: Seq<T::V>, b: Seq<T::V>)
    ensures
        same_poly::<T>(poly_add::<T>(poly_sub::<T>(a, b), b), a),
{
    let sum = poly_add::<T>(poly_sub::<T>(a, b), b);
    assert forall|i: int| coeff::<T>(sum, i) == coeff::<T>(a, i) by {
        lemma_coeff_add::<T>(poly_sub::<T>(a, b), b, i);
        lemma_coeff_sub::<T>(a, b, i);
        T::sub_undoes_add(coeff::<T>(a, i), coeff::<T>(b, i));
    }
}

/// The convolution does not depend on the order of the factors.
pub proof fn lemma_conv_comm<T: FieldLaws>(a: Seq<T::V>, b: Seq<T::V>, k: int)
    ensures
        conv::<T>(a, b, k) == conv::<T>(b, a, k),
{
    if k >= 0 {
        let f = conv_term::<T>(a, b, k);
        let g = conv_term::<T>(b, a, k);
        let n = (k + 1) as nat;
        assert forall|j: int| 0 <= j < n implies #[trigger] g(j) == f(n - 1 - j) by {
            T::mul_commutative(coeff::<T>(b, k - j), coeff::<T>(a, j));
        }
        lemma_sum_reverse::<T>(f, g, n);
    }
}

/// `a * b = b * a`.
pub proof fn lemma_mul_comm<T: FieldLaws>(a: Seq<T::V>, b: Seq<T::V>)
    ensures
        same_poly::<T>(poly_mul::<T>(a, b), poly_mul::<T>(b, a)),
{
    assert forall|i: int|
        coeff::<T>(poly_mul::<T>(a, b), i) == coeff::<T>(poly_mul::<T>(b, a), i) by {
        lemma_coeff_mul::<T>(a, b, i);
        lemma_coeff_mul::<T>(b, a, i);
        lemma_conv_comm::<T>(a, b, i);
    }
}

/// `a * (b + c) = a * b + a * c`.
pub proof fn lemma_mul_distrib<T: FieldLaws>(a: Seq<T::V>, b: Seq<T::V>, c: Seq<T::V>)
    ensures
        same_poly::<T>(
            poly_mul::<T>(a, poly_add::<T>(b, c)),
            poly_add::<T>(poly_mul::<T>(a, b), poly_mul::<T>(a, c)),
        ),
{
    let bc = poly_add::<T>(b, c);
    let l = poly_mul::<T>(a, bc);
    let r = poly_add::<T>(poly_mul::<T>(a, b), poly_mul::<T>(a, c));
    assert forall|k: int| coeff::<T>(l, k) == coeff::<T>(r, k) by {
        lemma_coeff_mul::<T>(a, bc, k);
        lemma_coeff_mul::<T>(a, b, k);
        lemma_coeff_mul::<T>(a, c, k);
        lemma_coeff_add::<T>(poly_mul::<T>(a, b), poly_mul::<T>(a, c), k);
        if k >= 0 {
            let f = conv_term::<T>(a, b, k);
            let g = conv_term::<T>(a, c, k);
            let h = conv_term::<T>(a, bc, k);
            assert forall|j: int| 0 <= j < k + 1 implies #[trigger] h(j) == T::add_view(
                f(j),
                g(j),
            ) by {
                lemma_coeff_add::<T>(b, c, j);
                T::distributive(coeff::<T>(a, k - j), coeff::<T>(b, j), coeff::<T>(c, j));
            }
            lemma_sum_add::<T>(f, g, h, (k + 1) as nat);
        } else {
            T::add_zero(T::zero_view());
        }
    }
}

/// `(a + b) * c = a * c + b * c`.
pub proof fn lemma_mul_distrib_left<T: FieldLaws>(a: Seq<T::V>, b: Seq<T::V>, c: Seq<T::V>)
    ensures
        same_poly::<T>(
            poly_mul::<T>(poly_add::<T>(a, b), c),
            poly_add::<T>(poly_mul::<T>(a, c), poly_mul::<T>(b, c)),
        ),
{
    let ab = poly_add::<T>(a, b);
    let l = poly_mul::<T>(ab, c);
    let r = poly_add::<T>(poly_mul::<T>(a, c), poly_mul::<T>(b, c));
    lemma_mul_distrib::<T>(c, a, b);
    assert forall|k: int| coeff::<T>(l, k) == coeff::<T>(r, k) by {
        lemma_coeff_mul::<T>(ab, c, k);
        lemma_coeff_mul::<T>(c, ab, k);
        lemma_conv_comm::<T>(ab, c, k);
        assert(coeff::<T>(poly_mul::<T>(c, ab), k) == coeff::<T>(
            poly_add::<T>(poly_mul::<T>(c, a), poly_mul::<T>(c, b)),
            k,
        ));
        lemma_coeff_add::<T>(poly_mul::<T>(c, a), poly_mul::<T>(c, b), k);
        lemma_coeff_add::<T>(poly_mul::<T>(a, c), poly_mul::<T>(b, c), k);
        lemma_coeff_mul::<T>(c, a, k);
        lemma_coeff_mul::<T>(a, c, k);
        lemma_conv_comm::<T>(a, c, k);
        lemma_coeff_mul::<T>(c, b, k);
        lemma_coeff_mul::<T>(b, c, k);
        lemma_conv_comm::<T>(b, c, k);
    }
}

/// `a * 1 = a`.
pub proof fn lemma_mul_one<T: FieldLaws>(a: Seq<T::V>)
    ensures
        same_poly::<T>(poly_mul::<T>(a, one_poly::<T>()), a),
{
    lemma_mul_constant::<T>(a, T::one_view());
    assert forall|i: int| coeff::<T>(poly_mul::<T>(a, one_poly::<T>()), i) == coeff::<T>(a, i) by {
        assert(coeff::<T>(poly_mul::<T>(a, constant::<T>(T::one_view())), i) == T::mul_view(
            coeff::<T>(a, i),
            T::one_view(),
        ));
        T::mul_one(coeff::<T>(a, i));
    }
}

/// A product with a zero factor is zero.
pub proof fn lemma_mul_zero_poly<T: FieldLaws>(a: Seq<T::V>, z: Seq<T::V>)
    requires
        is_zero::<T>(z),
    ensures
        is_zero::<T>(poly_mul::<T>(a, z)),
        is_zero::<T>(poly_mul::<T>(z, a)),
{
    let p = poly_mul::<T>(a, z);
    assert forall|k: int| 0 <= k < p.len() implies p[k] == T::zero_view() by {
        lemma_coeff_mul::<T>(a, z, k);
        let f = conv_term::<T>(a, z, k);
        assert forall|j: int| 0 <= j < k + 1 implies #[trigger] f(j) == T::zero_view() by {
            lemma_mul_zero::<T>(coeff::<T>(a, k - j));
        }
        lemma_sum_zero::<T>(f, (k + 1) as nat);
    }
    let q = poly_mul::<T>(z, a);
    assert forall|k: int| 0 <= k < q.len() implies q[k] == T::zero_view() by {
        lemma_coeff_mul::<T>(z, a, k);
        let f = conv_term::<T>(z, a, k);
        assert forall|j: int| 0 <= j < k + 1 implies #[trigger] f(j) == T::zero_view() by {
            lemma_mul_zero::<T>(coeff::<T>(a, j));
        }
        lemma_sum_zero::<T>(f, (k + 1) as nat);
    }
}

/// The convolution with a factor shifted up by one is the convolution
/// shifted up by one.
pub proof fn lemma_conv_shl<T: FieldLaws>(a: Seq<T::V>, b: Seq<T::V>, k: int)
    ensures
        conv::<T>(a, poly_shl::<T>(b, 1), k) == conv::<T>(a, b, k - 1),
{
    let sb = poly_shl::<T>(b, 1);
    if k >= 0 {
        let f = conv_term::<T>(a, sb, k);
        let g = conv_term::<T>(a, b, k - 1);
        assert(f(0) == T::zero_view()) by {
            lemma_coeff_shl::<T>(b, 1, 0);
            lemma_mul_zero::<T>(coeff::<T>(a, k));
        }
        assert forall|j: int| 0 <= j < k implies #[trigger] g(j) == f(j + 1) by {
            lemma_coeff_shl::<T>(b, 1, j + 1);
        }
        lemma_sum_shift::<T>(f, g, (k + 1) as nat, 1);
        if k == 0 {
            assert(sum::<T>(g, 0) == T::zero_view());
        }
    }
}

/// The terms of the double sum that both ways of bracketing a product of
/// three lead to.
pub open spec fn triple_term<T: FieldLaws>(
    a: Seq<T::V>,
    b: Seq<T::V>,
    c: Seq<T::V>,
    k: int,
) -> spec_fn(int, int) -> T::V {
    |i: int, j: int|
        T::mul_view(T::mul_view(coeff::<T>(a, k - j - i), coeff::<T>(b, i)), coeff::<T>(c, j))
}

/// The coefficient of `(a * b) * c` as a double sum.
proof fn lemma_triple_left<T: FieldLaws>(a: Seq<T::V>, b: Seq<T::V>, c: Seq<T::V>, k: int, j: int)
    requires
        0 <= j <= k,
    ensures
        conv_term::<T>(poly_mul::<T>(a, b), c, k)(j) == sum::<T>(
            |i: int| triple_term::<T>(a, b, c, k)(i, j),
            (k + 1) as nat,
        ),
{
    let n = (k + 1) as nat;
    let ab = poly_mul::<T>(a, b);
    let cj = coeff::<T>(c, j);
    let inner = conv_term::<T>(a, b, k - j);
    let column = |i: int| triple_term::<T>(a, b, c, k)(i, j);
    lemma_coeff_mul::<T>(a, b, k - j);
    lemma_conv_upto::<T>(a, b, k - j, n);
    // (sum of inner) * cj = sum of (inner * cj)
    let scaled = |i: int| T::mul_view(cj, inner(i));
    lemma_sum_scale::<T>(cj, inner, scaled, n);
    T::mul_commutative(cj, sum::<T>(inner, n));
    assert forall|i: int| 0 <= i < n implies #[trigger] scaled(i) == column(i) by {
        T::mul_commutative(cj, inner(i));
    }
    lemma_sum_ext::<T>(scaled, column, n);
}

/// The coefficient of `a * (b * c)` as a double sum.
proof fn lemma_triple_right<T: FieldLaws>(a: Seq<T::V>, b: Seq<T::V>, c: Seq<T::V>, k: int, m: int)
    requires
        0 <= m <= k,
    ensures
        conv_term::<T>(a, poly_mul::<T>(b, c), k)(m) == sum::<T>(
            |j: int|
                T::mul_view(
                    coeff::<T>(a, k - m),
                    T::mul_view(coeff::<T>(b, m - j), coeff::<T>(c, j)),
                ),
            (k + 1) as nat,
        ),
{
    let n = (k + 1) as nat;
    let am = coeff::<T>(a, k - m);
    let inner = conv_term::<T>(b, c, m);
    let row = |j: int| T::mul_view(am, T::mul_view(coeff::<T>(b, m - j), coeff::<T>(c, j)));
    lemma_coeff_mul::<T>(b, c, m);
    lemma_conv_upto::<T>(b, c, m, n);
    lemma_sum_scale::<T>(am, inner, row, n);
}

/// For a fixed `j`, the terms of the right bracketing, summed over `m`, are
/// the terms of the left bracketing, summed over `i`.
proof fn lemma_triple_column<T: FieldLaws>(a: Seq<T::V>, b: Seq<T::V>, c: Seq<T::V>, k: int, j: int)
    requires
        0 <= j <= k,
    ensures
        sum::<T>(
            |m: int|
                T::mul_view(
                    coeff::<T>(a, k - m),
                    T::mul_view(coeff::<T>(b, m - j), coeff::<T>(c, j)),
                ),
            (k + 1) as nat,
        ) == sum::<T>(|i: int| triple_term::<T>(a, b, c, k)(i, j), (k + 1) as nat),
{
    let n = (k + 1) as nat;
    let cj = coeff::<T>(c, j);
    let by_m = |m: int|
        T::mul_view(coeff::<T>(a, k - m), T::mul_view(coeff::<T>(b, m - j), coeff::<T>(c, j)));
    let by_i = |i: int| triple_term::<T>(a, b, c, k)(i, j);
    // dropping the first j terms of by_m, which are zero
    assert forall|m: int| 0 <= m < j implies #[trigger] by_m(m) == T::zero_view() by {
        lemma_mul_zero::<T>(cj);
        lemma_mul_zero::<T>(coeff::<T>(a, k - m));
    }
    assert forall|i: int| 0 <= i < n - j implies #[trigger] by_i(i) == by_m(i + j) by {
        T::mul_associative(coeff::<T>(a, k - j - i), coeff::<T>(b, i), cj);
    }
    lemma_sum_shift::<T>(by_m, by_i, n, j as nat);
    // the terms of by_i from n - j on are zero
    assert forall|i: int| n - j <= i < n implies #[trigger] by_i(i) == T::zero_view() by {
        lemma_mul_zero::<T>(coeff::<T>(b, i));
        lemma_mul_zero::<T>(cj);
    }
    lemma_sum_extend::<T>(by_i, (n - j) as nat, n);
}

/// `(a * b) * c = a * (b * c)`.
pub proof fn lemma_mul_assoc<T: FieldLaws>(a: Seq<T::V>, b: Seq<T::V>, c: Seq<T::V>)
    ensures
        same_poly::<T>(
            poly_mul::<T>(poly_mul::<T>(a, b), c),
            poly_mul::<T>(a, poly_mul::<T>(b, c)),
        ),
{
    let ab = poly_mul::<T>(a, b);
    let bc = poly_mul::<T>(b, c);
    assert forall|k: int|
        coeff::<T>(poly_mul::<T>(ab, c), k) == coeff::<T>(poly_mul::<T>(a, bc), k) by {
        lemma_coeff_mul::<T>(ab, c, k);
        lemma_coeff_mul::<T>(a, bc, k);
        if k >= 0 {
            let n = (k + 1) as nat;
            let left = conv_term::<T>(ab, c, k);
            let right = conv_term::<T>(a, bc, k);
            let grid = |m: int, j: int|
                T::mul_view(
                    coeff::<T>(a, k - m),
                    T::mul_view(coeff::<T>(b, m - j), coeff::<T>(c, j)),
                );
            // right(m) is the sum of row m of the grid
            assert forall|m: int| 0 <= m < n implies #[trigger] right(m) == sum::<T>(
                |j: int| grid(m, j),
                n,
            ) by {
                lemma_triple_right::<T>(a, b, c, k, m);
                lemma_sum_ext::<T>(
                    |j: int|
                        T::mul_view(
                            coeff::<T>(a, k - m),
                            T::mul_view(coeff::<T>(b, m - j), coeff::<T>(c, j)),
                        ),
                    |j: int| grid(m, j),
                    n,
                );
            }
            // left(j) is the sum of column j of the grid
            assert forall|j: int| 0 <= j < n implies #[trigger] left(j) == sum::<T>(
                |m: int| grid(m, j),
                n,
            ) by {
                lemma_triple_left::<T>(a, b, c, k, j);
                lemma_triple_column::<T>(a, b, c, k, j);
                lemma_sum_ext::<T>(
                    |m: int|
                        T::mul_view(
                            coeff::<T>(a, k - m),
                            T::mul_view(coeff::<T>(b, m - j), coeff::<T>(c, j)),
                        ),
                    |m: int| grid(m, j),
                    n,
                );
            }
            lemma_sum_swap::<T>(grid, right, left, n, n);
        }
    }
}

} // verus!
