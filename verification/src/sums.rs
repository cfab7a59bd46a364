//! Finite sums in a field.
use crate::field::{lemma_zero_add, Field, FieldLaws};
use vstd::prelude::*;

verus! {

/// `f(0) + f(1) + ... + f(n - 1)`, added from the left, starting from zero.
pub open spec fn sum<T: Field>(f: spec_fn(int) -> T::V, n: nat) -> T::V
    decreases n,
{
    if n == 0 {
        T::zero_view()
    } else {
        T::add_view(sum::<T>(f, (n - 1) as nat), f(n - 1))
    }
}

/// Sums of terms that agree are equal.
pub proof fn lemma_sum_ext<T: Field>(f: spec_fn(int) -> T::V, g: spec_fn(int) -> T::V, n: nat)
    requires
        forall|j: int| 0 <= j < n ==> #[trigger] f(j) == g(j),
    ensures
        sum::<T>(f, n) == sum::<T>(g, n),
    decreases n,
{
    if n > 0 {
        lemma_sum_ext::<T>(f, g, (n - 1) as nat);
    }
}

/// Terms that are zero from `n` on add nothing.
pub proof fn lemma_sum_extend<T: FieldLaws>(f: spec_fn(int) -> T::V, n: nat, m: nat)
    requires
        n <= m,
        forall|j: int| n <= j < m ==> #[trigger] f(j) == T::zero_view(),
    ensures
        sum::<T>(f, m) == sum::<T>(f, n),
    decreases m,
{
    if m > n {
        lemma_sum_extend::<T>(f, n, (m - 1) as nat);
        T::add_zero(sum::<T>(f, n));
    }
}

/// A sum of zeros is zero.
pub proof fn lemma_sum_zero<T: FieldLaws>(f: spec_fn(int) -> T::V, n: nat)
    requires
        forall|j: int| 0 <= j < n ==> #[trigger] f(j) == T::zero_view(),
    ensures
        sum::<T>(f, n) == T::zero_view(),
{
    lemma_sum_extend::<T>(f, 0, n);
}

/// A sum with one term that may be nonzero is that term.
pub proof fn lemma_sum_single<T: FieldLaws>(f: spec_fn(int) -> T::V, n: nat, at: int)
    requires
        0 <= at < n,
        forall|j: int| 0 <= j < n && j != at ==> #[trigger] f(j) == T::zero_view(),
    ensures
        sum::<T>(f, n) == f(at),
{
    lemma_sum_zero::<T>(f, at as nat);
    lemma_zero_add::<T>(f(at));
    assert(sum::<T>(f, (at + 1) as nat) == f(at));
    lemma_sum_extend::<T>(f, (at + 1) as nat, n);
}

/// `(a + b) + (c + d) == (a + c) + (b + d)`.
pub proof fn lemma_add_interchange<T: FieldLaws>(a: T::V, b: T::V, c: T::V, d: T::V)
    ensures
        T::add_view(T::add_view(a, b), T::add_view(c, d)) == T::add_view(
            T::add_view(a, c),
            T::add_view(b, d),
        ),
{
    T::add_associative(a, b, T::add_view(c, d));
    T::add_associative(b, c, d);
    T::add_commutative(b, c);
    T::add_associative(c, b, d);
    T::add_associative(a, c, T::add_view(b, d));
}

/// The sum of sums is the sum of the summed terms.
pub proof fn lemma_sum_add<T: FieldLaws>(
    f: spec_fn(int) -> T::V,
    g: spec_fn(int) -> T::V,
    h: spec_fn(int) -> T::V,
    n: nat,
)
    requires
        forall|j: int| 0 <= j < n ==> #[trigger] h(j) == T::add_view(f(j), g(j)),
    ensures
        sum::<T>(h, n) == T::add_view(sum::<T>(f, n), sum::<T>(g, n)),
    decreases n,
{
    if n == 0 {
        T::add_zero(T::zero_view());
    } else {
        lemma_sum_add::<T>(f, g, h, (n - 1) as nat);
        lemma_add_interchange::<T>(
            sum::<T>(f, (n - 1) as nat),
            sum::<T>(g, (n - 1) as nat),
            f(n - 1),
            g(n - 1),
        );
    }
}

/// A factor on the left of every term can be taken out of the sum.
pub proof fn lemma_sum_scale<T: FieldLaws>(
    c: T::V,
    f: spec_fn(int) -> T::V,
    h: spec_fn(int) -> T::V,
    n: nat,
)
    requires
        forall|j: int| 0 <= j < n ==> #[trigger] h(j) == T::mul_view(c, f(j)),
    ensures
        sum::<T>(h, n) == T::mul_view(c, sum::<T>(f, n)),
    decreases n,
{
    if n == 0 {
        crate::field::lemma_mul_zero::<T>(c);
    } else {
        lemma_sum_scale::<T>(c, f, h, (n - 1) as nat);
        T::distributive(c, sum::<T>(f, (n - 1) as nat), f(n - 1));
    }
}

/// The first term can be split off a sum: the rest is the sum of the
/// terms shifted down by one.
pub proof fn lemma_sum_first<T: FieldLaws>(
    f: spec_fn(int) -> T::V,
    g: spec_fn(int) -> T::V,
    n: nat,
)
    requires
        n > 0,
        forall|j: int| 0 <= j < n - 1 ==> #[trigger] g(j) == f(j + 1),
    ensures
        sum::<T>(f, n) == T::add_view(f(0), sum::<T>(g, (n - 1) as nat)),
    decreases n,
{
    if n == 1 {
        lemma_zero_add::<T>(f(0));
        T::add_zero(f(0));
        assert(sum::<T>(f, 0) == T::zero_view());
        assert(sum::<T>(g, 0) == T::zero_view());
    } else {
        lemma_sum_first::<T>(f, g, (n - 1) as nat);
        T::add_associative(f(0), sum::<T>(g, (n - 2) as nat), f(n - 1));
        assert(g(n - 2) == f(n - 2 + 1));
        assert(sum::<T>(g, (n - 1) as nat) == T::add_view(sum::<T>(g, (n - 2) as nat), g(n - 2)));
    }
}

/// A sum read backwards is the same sum.
pub proof fn lemma_sum_reverse<T: FieldLaws>(
    f: spec_fn(int) -> T::V,
    g: spec_fn(int) -> T::V,
    n: nat,
)
    requires
        forall|j: int| 0 <= j < n ==> #[trigger] g(j) == f(n - 1 - j),
    ensures
        sum::<T>(g, n) == sum::<T>(f, n),
    decreases n,
{
    if n > 0 {
        // g = f(n-1), f(n-2), ..., f(0).  Split the first term off g.
        let g_rest = |j: int| g(j + 1);
        lemma_sum_first::<T>(g, g_rest, n);
        lemma_sum_reverse::<T>(f, g_rest, (n - 1) as nat);
        T::add_commutative(g(0), sum::<T>(f, (n - 1) as nat));
    }
}

/// Terms that are zero below `k` can be dropped from the front of a sum:
/// the sum of `f` over `n` is the sum of `f` shifted down by `k` over `n - k`.
pub proof fn lemma_sum_shift<T: FieldLaws>(
    f: spec_fn(int) -> T::V,
    g: spec_fn(int) -> T::V,
    n: nat,
    k: nat,
)
    requires
        k <= n,
        forall|j: int| 0 <= j < k ==> #[trigger] f(j) == T::zero_view(),
        forall|j: int| 0 <= j < n - k ==> #[trigger] g(j) == f(j + k),
    ensures
        sum::<T>(f, n) == sum::<T>(g, (n - k) as nat),
    decreases n,
{
    if n == k {
        lemma_sum_zero::<T>(f, n);
    } else {
        lemma_sum_shift::<T>(f, g, (n - 1) as nat, k);
        assert(g(n - 1 - k) == f(n - 1 - k + k));
    }
}

/// A double sum can be taken in either order.
pub proof fn lemma_sum_swap<T: FieldLaws>(
    f: spec_fn(int, int) -> T::V,
    rows: spec_fn(int) -> T::V,
    columns: spec_fn(int) -> T::V,
    n: nat,
    m: nat,
)
    requires
        forall|i: int| 0 <= i < n ==> #[trigger] rows(i) == sum::<T>(|j: int| f(i, j), m),
        forall|j: int| 0 <= j < m ==> #[trigger] columns(j) == sum::<T>(|i: int| f(i, j), n),
    ensures
        sum::<T>(rows, n) == sum::<T>(columns, m),
    decreases n,
{
    if n == 0 {
        assert forall|j: int| 0 <= j < m implies #[trigger] columns(j) == T::zero_view() by {
        }
        lemma_sum_zero::<T>(columns, m);
    } else {
        let shorter = |j: int| sum::<T>(|i: int| f(i, j), (n - 1) as nat);
        lemma_sum_swap::<T>(f, rows, shorter, (n - 1) as nat, m);
        let last_row = |j: int| f(n - 1, j);
        assert forall|j: int| 0 <= j < m implies #[trigger] columns(j) == T::add_view(
            shorter(j),
            last_row(j),
        ) by {
            let col = |i: int| f(i, j);
            assert(columns(j) == sum::<T>(col, n));
            assert(col(n - 1) == f(n - 1, j));
        }
        lemma_sum_add::<T>(shorter, last_row, columns, m);
        assert(rows(n - 1) == sum::<T>(|j: int| f(n - 1, j), m));
        lemma_sum_ext::<T>(last_row, |j: int| f(n - 1, j), m);
    }
}

} // verus!
