//! A curve `y^2 + xy = x^3 + ax^2 + b` over GF(256), with all of its points
//! found when it is made.
use crate::e256_closure::{lemma_multiple_on_curve, lemma_same_abscissa, lemma_sum_on_curve};
use crate::e256_model::{
    code, generates, holds_at, magnitude, multiple, on_curve, point_add, point_at, point_mul,
    point_neg,
};
use crate::ec::{Ec, Point};
use crate::field::Field;
use crate::gf256::Gf256;
use crate::poly_model::views;
use rayon::iter::{IntoParallelIterator, ParallelIterator};
use vstd::prelude::*;

verus! {

/// A curve with its coefficients and its points.
#[derive(Debug)]
pub struct E256 {
    a: Gf256,
    b: Gf256,
    set: Vec<Point<Gf256>>,
}

/// Whether the pair of bytes that `index` stands for satisfies the equation
/// of the curve with the coefficients `a` and `b`.
fn satisfies(a: &Gf256, b: &Gf256, index: u32) -> (r: bool)
    requires
        index < 65536,
    ensures
        r == holds_at(a@, b@, index),
{
    let x = Gf256::from((index / 256) as u8);
    let y = Gf256::from((index % 256) as u8);
    E256::equation(a.clone(), b.clone(), &Point::new(x, y))
}

/// rayon's `into_par_iter` on the range of the numbers under 65536, with
/// `filter` and `collect`: the numbers of the range for which [`satisfies`]
/// gives `true` come back, each of them once; their order is left open.
#[verifier::external_body]
fn solutions(a: &Gf256, b: &Gf256) -> (found: Vec<u32>)
    ensures
        found@.no_duplicates(),
        forall|i: u32| #[trigger] found@.contains(i) <==> (i < 65536 && holds_at(a@, b@, i)),
{
    (0u32..65536).into_par_iter().filter(|i| satisfies(a, b, *i)).collect()
}

/// The absolute value of `n`.
fn magnitude_of(n: isize) -> (m: usize)
    ensures
        m == magnitude(n as int),
{
    if n >= 0 {
        n as usize
    } else if n == isize::MIN {
        (isize::MAX as usize) + 1
    } else {
        (-n) as usize
    }
}

/// The number of a point.
fn code_of(p: &Point<Gf256>) -> (c: usize)
    ensures
        c == code(p@),
        c <= 65536,
{
    match p {
        Point::Identity => 65536,
        Point::Ordinary(x, y) => (x.to_byte() as usize) * 256 + (y.to_byte() as usize),
    }
}

impl E256 {
    /// The points are all different, and they are the points of the curve.
    #[verifier::type_invariant]
    spec fn complete(self) -> bool {
        &&& views(self.set@).no_duplicates()
        &&& forall|p: Point<u8>| #[trigger]
            views(self.set@).contains(p) <==> on_curve(self.a@, self.b@, p)
    }

    /// The coefficient of `x^2` in the equation.
    pub closed spec fn a(&self) -> u8 {
        self.a@
    }

    /// The constant of the equation.
    pub closed spec fn b(&self) -> u8 {
        self.b@
    }

    /// The points of the curve, in the order in which they are held.
    pub closed spec fn points_view(&self) -> Seq<Point<u8>> {
        views(self.set@)
    }

    /// The curve with the coefficients `a` and `b`: every pair of bytes is
    /// tried against the equation, and the identity is added to those that fit.
    pub fn new(a: Gf256, b: Gf256) -> (curve: Self)
        ensures
            curve.a() == a@,
            curve.b() == b@,
            curve.points_view().no_duplicates(),
            forall|p: Point<u8>| #[trigger]
                curve.points_view().contains(p) <==> on_curve(a@, b@, p),
    {
        let found = solutions(&a, &b);
        let mut set: Vec<Point<Gf256>> = Vec::new();
        let n = found.len();
        let mut k: usize = 0;
        while k < n
            invariant
                n == found@.len(),
                k <= n,
                set@.len() == k,
                forall|i: u32| #[trigger] found@.contains(i) ==> i < 65536,
                forall|j: int| 0 <= j < k ==> (#[trigger] set@[j])@ == point_at(found@[j]),
            decreases n - k,
        {
            let index = found[k];
            assert(found@.contains(index));
            let x = Gf256::from((index / 256) as u8);
            let y = Gf256::from((index % 256) as u8);
            set.push(Point::new(x, y));
            k += 1;
        }
        set.push(Point::Identity);
        proof {
            let all = views(set@);
            assert forall|i: int, j: int|
                0 <= i < all.len() && 0 <= j < all.len() && i != j implies all[i] != all[j] by {
                if i < n && j < n {
                    assert(set@[i]@ == point_at(found@[i]));
                    assert(set@[j]@ == point_at(found@[j]));
                    assert(found@.contains(found@[i]));
                    assert(found@.contains(found@[j]));
                    assert(found@[i] != found@[j]);
                } else if i < n {
                    assert(set@[i]@ == point_at(found@[i]));
                } else if j < n {
                    assert(set@[j]@ == point_at(found@[j]));
                }
            }
            assert forall|p: Point<u8>| #[trigger] all.contains(p) <==> on_curve(a@, b@, p) by {
                if all.contains(p) {
                    let i = choose|i: int| 0 <= i < all.len() && all[i] == p;
                    if i < n {
                        assert(set@[i]@ == point_at(found@[i]));
                        assert(found@.contains(found@[i]));
                    }
                }
                if on_curve(a@, b@, p) {
                    match p {
                        Point::Identity => {
                            assert(all[n as int] == p);
                        },
                        Point::Ordinary(x, y) => {
                            let index = (x * 256 + y) as u32;
                            assert(index / 256 == x && index % 256 == y);
                            assert(holds_at(a@, b@, index));
                            assert(found@.contains(index));
                            let j = choose|j: int| 0 <= j < found@.len() && found@[j] == index;
                            assert(set@[j]@ == point_at(found@[j]));
                            assert(all[j] == p);
                        },
                    }
                }
            }
        }
        E256 { a, b, set }
    }

    /// Whether the point satisfies the equation of the curve with the
    /// coefficients `a` and `b`.
    pub fn equation(a: Gf256, b: Gf256, p: &Point<Gf256>) -> (r: bool)
        ensures
            r == on_curve(a@, b@, p@),
    {
        match p {
            Point::Identity => true,
            Point::Ordinary(x, y) => {
                let left = y.clone().mul(y.clone()).add(x.clone().mul(y.clone()));
                let right = x.clone().mul(x.clone()).mul(x.clone()).add(
                    a.mul(x.clone()).mul(x.clone()),
                ).add(b);
                left.same(&right)
            },
        }
    }

    /// The number of points of the curve, the identity among them.
    pub fn order(&self) -> (n: usize)
        ensures
            n == self.points_view().len(),
            n == self.points_view().to_set().len(),
            n >= 1,
    {
        proof {
            use_type_invariant(self);
            self.points_view().unique_seq_to_set();
            assert(self.points_view().contains(Point::Identity));
        }
        self.set.len()
    }

    /// A copy of the points of the curve: each point of the curve once.
    pub fn points(&self) -> (all: Vec<Point<Gf256>>)
        ensures
            views(all@) == self.points_view(),
            views(all@).no_duplicates(),
            forall|p: Point<u8>| #[trigger]
                views(all@).contains(p) <==> on_curve(self.a(), self.b(), p),
    {
        proof {
            use_type_invariant(self);
        }
        let n = self.set.len();
        let mut all: Vec<Point<Gf256>> = Vec::new();
        let mut k: usize = 0;
        while k < n
            invariant
                n == self.set@.len(),
                k <= n,
                all@.len() == k,
                forall|j: int| 0 <= j < k ==> (#[trigger] all@[j])@ == self.set@[j]@,
            decreases n - k,
        {
            all.push(self.set[k].clone());
            k += 1;
        }
        assert(views(all@) =~= views(self.set@));
        all
    }

    /// Whether the point is on the curve.
    pub fn contains(&self, p: &Point<Gf256>) -> (r: bool)
        ensures
            r == on_curve(self.a(), self.b(), p@),
    {
        Self::equation(self.a.clone(), self.b.clone(), p)
    }

    /// Whether `p` is a point of the curve whose multiples `p`, `2p`, ... up
    /// to the order of the curve are all different: whether `p` generates the
    /// whole group.
    pub fn is_generator(&self, p: &Point<Gf256>) -> (r: bool)
        ensures
            r == generates(self.a(), self.b(), p@, self.points_view().len()),
    {
        if !self.contains(p) {
            return false;
        }
        let n = self.order();
        let ghost a = self.a@;
        let ghost b = self.b@;
        let mut seen: Vec<bool> = Vec::new();
        let mut i: usize = 0;
        while i < 65537
            invariant
                i <= 65537,
                seen@.len() == i,
                forall|c: int| 0 <= c < i ==> !seen@[c],
            decreases 65537 - i,
        {
            seen.push(false);
            i += 1;
        }
        let mut walk: Point<Gf256> = Point::Identity;
        let mut k: usize = 0;
        while k < n
            invariant
                k <= n,
                n == self.points_view().len(),
                a == self.a(),
                b == self.b(),
                on_curve(a, b, p@),
                seen@.len() == 65537,
                multiple(a, p@, k as nat) == walk@,
                forall|i: int, j: int|
                    1 <= i < j <= k ==> #[trigger] multiple(a, p@, i as nat) != #[trigger] multiple(
                        a,
                        p@,
                        j as nat,
                    ),
                forall|c: int|
                    0 <= c < 65537 ==> (#[trigger] seen@[c] <==> exists|j: int|
                        1 <= j <= k && code(#[trigger] multiple(a, p@, j as nat)) == c),
            decreases n - k,
        {
            proof {
                lemma_multiple_on_curve(a, b, p@, k as nat);
            }
            let next = match self.add(walk, p.clone()) {
                Some(next) => next,
                None => vstd::pervasive::unreached(),
            };
            assert(multiple(a, p@, (k + 1) as nat) == next@);
            let c = code_of(&next);
            if seen[c] {
                proof {
                    let j = choose|j: int|
                        1 <= j <= k && code(#[trigger] multiple(a, p@, j as nat)) == c;
                    assert(multiple(a, p@, j as nat) == multiple(a, p@, (k + 1) as nat));
                }
                return false;
            }
            let ghost before = seen@;
            seen.set(c, true);
            walk = next;
            k += 1;
            proof {
                assert forall|i: int, j: int| 1 <= i < j <= k implies #[trigger] multiple(
                    a,
                    p@,
                    i as nat,
                ) != #[trigger] multiple(a, p@, j as nat) by {
                    if j == k {
                        if multiple(a, p@, i as nat) == multiple(a, p@, j as nat) {
                            assert(code(multiple(a, p@, i as nat)) == c);
                            assert(before[c as int]);
                        }
                    }
                }
                assert forall|d: int| 0 <= d < 65537 implies (#[trigger] seen@[d] <==> exists|
                    j: int,
                | 1 <= j <= k && code(#[trigger] multiple(a, p@, j as nat)) == d) by {
                    if d == c {
                        assert(code(multiple(a, p@, k as nat)) == d);
                    } else {
                        if before[d] {
                            let j = choose|j: int|
                                1 <= j <= k - 1 && code(#[trigger] multiple(a, p@, j as nat)) == d;
                            assert(1 <= j <= k && code(multiple(a, p@, j as nat)) == d);
                        }
                        if exists|j: int|
                            1 <= j <= k && code(#[trigger] multiple(a, p@, j as nat)) == d {
                            let j = choose|j: int|
                                1 <= j <= k && code(#[trigger] multiple(a, p@, j as nat)) == d;
                            assert(j != k);
                            assert(1 <= j <= k - 1);
                        }
                    }
                }
            }
        }
        true
    }
}

impl Ec<Gf256> for E256 {
    open spec fn on_curve(&self, p: Point<u8>) -> bool {
        on_curve(self.a(), self.b(), p)
    }

    open spec fn add_view(&self, p: Point<u8>, q: Point<u8>) -> Option<Point<u8>> {
        point_add(self.a(), self.b(), p, q)
    }

    open spec fn neg_view(&self, p: Point<u8>) -> Option<Point<u8>> {
        point_neg(self.a(), self.b(), p)
    }

    open spec fn mul_view(&self, n: int, p: Point<u8>) -> Option<Point<u8>> {
        point_mul(self.a(), self.b(), n, p)
    }

    proof fn law_identity(&self, p: Point<u8>) {
        crate::e256_laws::law_identity_is_neutral(self.a(), self.b(), p);
    }

    proof fn law_inverse(&self, p: Point<u8>) {
        crate::e256_laws::law_inverse(self.a(), self.b(), p);
    }

    proof fn law_commutative(&self, p: Point<u8>, q: Point<u8>) {
        crate::e256_laws::law_add_commutative(self.a(), self.b(), p, q);
    }

    proof fn law_products(&self, n: int, p: Point<u8>) {
        crate::e256_laws::law_mul_zero_and_one(self.a(), self.b(), n, p);
        crate::e256_laws::law_product_on_curve(self.a(), self.b(), n, p);
        crate::e256_laws::law_mul_negative(self.a(), self.b(), n, p);
    }

    /// The sum of two points of the curve.
    fn add(&self, p: Point<Gf256>, q: Point<Gf256>) -> (r: Option<Point<Gf256>>) {
        if !self.contains(&p) || !self.contains(&q) {
            return None;
        }
        proof {
            lemma_sum_on_curve(self.a@, self.b@, p@, q@);
        }
        let (x0, y0) = match p {
            Point::Identity => {
                return Some(q);
            },
            Point::Ordinary(x, y) => (x, y),
        };
        let (x1, y1) = match q {
            Point::Identity => {
                return Some(Point::Ordinary(x0, y0));
            },
            Point::Ordinary(x, y) => (x, y),
        };
        let same_x = x0.same(&x1);
        if same_x && y0.same(&x1.clone().add(y1.clone())) {
            return Some(Point::Identity);
        }
        let quotient = if same_x && y0.same(&y1) {
            assert(x1@ != 0) by {
                let x = x1@;
                let y = y1@;
                assert(x == 0 ==> y == (x ^ y)) by (bit_vector);
            }
            y0.clone().div(x1.clone())
        } else {
            assert((x0@ ^ x1@) != 0) by {
                let x = x0@;
                let y = x1@;
                assert((x ^ y) == 0 <==> x == y) by (bit_vector);
                if x == y {
                    lemma_same_abscissa(self.a@, self.b@, x, y1@, y0@);
                }
            }
            y0.clone().add(y1.clone()).div(x0.clone().add(x1.clone()))
        };
        let t = match quotient {
            Ok(t) => t,
            Err(_) => vstd::pervasive::unreached(),
        };
        let k = if same_x && y0.same(&y1) {
            x0.clone().add(t)
        } else {
            t
        };
        let x2 = k.clone().mul(k.clone()).add(k.clone()).add(x0.clone()).add(x1.clone()).add(
            self.a.clone(),
        );
        let y2 = k.mul(x0.add(x2.clone())).add(x2.clone()).add(y0);
        Some(Point::Ordinary(x2, y2))
    }

    /// The inverse of a point of the curve.
    fn neg(&self, p: Point<Gf256>) -> (r: Option<Point<Gf256>>) {
        if !self.contains(&p) {
            return None;
        }
        proof {
            crate::e256_closure::lemma_reflect(self.a@, self.b@, p@);
        }
        match p {
            Point::Identity => Some(Point::Identity),
            Point::Ordinary(x, y) => {
                let y2 = x.clone().add(y);
                Some(Point::Ordinary(x, y2))
            },
        }
    }

    /// The point added to itself `|n|` times, one addition after the other,
    /// and reflected if `n` is negative.
    fn mul(&self, n: isize, p: Point<Gf256>) -> (r: Option<Point<Gf256>>) {
        if !self.contains(&p) {
            return None;
        }
        let ghost a = self.a@;
        let ghost b = self.b@;
        let count = magnitude_of(n);
        let mut sum: Point<Gf256> = Point::Identity;
        let mut k: usize = 0;
        if let Point::Identity = p {
            proof {
                crate::e256_laws::lemma_multiple_of_identity(a, count as nat);
            }
        } else {
            while k < count
                invariant
                    k <= count,
                    a == self.a(),
                    b == self.b(),
                    on_curve(a, b, p@),
                    multiple(a, p@, k as nat) == sum@,
                decreases count - k,
            {
                proof {
                    lemma_multiple_on_curve(a, b, p@, k as nat);
                }
                sum = match self.add(sum, p.clone()) {
                    Some(next) => next,
                    None => vstd::pervasive::unreached(),
                };
                k += 1;
            }
        }
        proof {
            lemma_multiple_on_curve(a, b, p@, count as nat);
        }
        if n < 0 {
            self.neg(sum)
        } else {
            Some(sum)
        }
    }
}

} // verus!
