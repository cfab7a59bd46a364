//! Points of an elliptic curve over a field, and the contract of a curve's
//! group law.
use crate::field::Field;
use vstd::prelude::*;
use vstd::std_specs::cmp::PartialEqSpecImpl;

verus! {

/// A point of a curve over `F`: the neutral element of the group, or a pair
/// of coordinates.
#[derive(Debug)]
pub enum Point<F> {
    Identity,
    Ordinary(F, F),
}

impl<F: View> View for Point<F> {
    type V = Point<F::V>;

    /// The point with the values of the coordinates.
    open spec fn view(&self) -> Point<F::V> {
        match self {
            Point::Identity => Point::Identity,
            Point::Ordinary(x, y) => Point::Ordinary(x@, y@),
        }
    }
}

/// The value of a point that may be missing.
pub open spec fn option_view<F: View>(p: Option<Point<F>>) -> Option<Point<F::V>> {
    match p {
        Some(point) => Some(point@),
        None => None,
    }
}

impl<F: Field> Point<F> {
    /// The point with the coordinates `x` and `y`.
    pub fn new(x: F, y: F) -> (p: Self)
        ensures
            p@ == Point::Ordinary(x@, y@),
    {
        Point::Ordinary(x, y)
    }
}

impl<F: Field> Clone for Point<F> {
    fn clone(&self) -> (p: Self)
        ensures
            p@ == self@,
    {
        match self {
            Point::Identity => Point::Identity,
            Point::Ordinary(x, y) => {
                let x2 = x.clone();
                let y2 = y.clone();
                proof {
                    F::clone_keeps_view(*x, x2);
                    F::clone_keeps_view(*y, y2);
                }
                Point::Ordinary(x2, y2)
            },
        }
    }
}

impl<F: Field> PartialEq for Point<F> {
    /// Points are equal when both are the identity, or both are ordinary
    /// with coordinates of equal value.
    fn eq(&self, other: &Self) -> (r: bool) {
        match self {
            Point::Identity => match other {
                Point::Identity => true,
                Point::Ordinary(_, _) => false,
            },
            Point::Ordinary(x, y) => match other {
                Point::Identity => false,
                Point::Ordinary(x2, y2) => x.same(x2) && y.same(y2),
            },
        }
    }
}

impl<F: Field> Eq for Point<F> {

}

impl<F: Field> PartialEqSpecImpl for Point<F> {
    open spec fn obeys_eq_spec() -> bool {
        true
    }

    open spec fn eq_spec(&self, other: &Self) -> bool {
        self@ == other@
    }
}

/// The group law of an elliptic curve over the field `F`.
///
/// Each operation is specified by a function on the values of points, and
/// fails on a point that is not on the curve.
pub trait Ec<F: Field> {
    /// Whether the point satisfies the equation of the curve.
    spec fn on_curve(&self, p: Point<F::V>) -> bool;

    /// The sum of two points, where it is defined.
    spec fn add_view(&self, p: Point<F::V>, q: Point<F::V>) -> Option<Point<F::V>>;

    /// The inverse of a point, where it is defined.
    spec fn neg_view(&self, p: Point<F::V>) -> Option<Point<F::V>>;

    /// The point added to itself `n` times, where that is defined; the
    /// inverse of that for a negative `n`.
    spec fn mul_view(&self, n: int, p: Point<F::V>) -> Option<Point<F::V>>;

    /// The sum of two points: it exists exactly if both are on the curve,
    /// and then it is on the curve.
    fn add(&self, p: Point<F>, q: Point<F>) -> (r: Option<Point<F>>)
        ensures
            r is Some <==> self.on_curve(p@) && self.on_curve(q@),
            option_view(r) == self.add_view(p@, q@),
            r matches Some(sum) ==> self.on_curve(sum@),
    ;

    /// The inverse of a point: it exists exactly if the point is on the
    /// curve, and then it is on the curve.
    fn neg(&self, p: Point<F>) -> (r: Option<Point<F>>)
        ensures
            r is Some <==> self.on_curve(p@),
            option_view(r) == self.neg_view(p@),
            r matches Some(inverse) ==> self.on_curve(inverse@),
    ;

    /// The product of a number and a point: it exists exactly if the point
    /// is on the curve, and then it is on the curve.
    fn mul(&self, n: isize, p: Point<F>) -> (r: Option<Point<F>>)
        ensures
            r is Some <==> self.on_curve(p@),
            option_view(r) == self.mul_view(n as int, p@),
            r matches Some(product) ==> self.on_curve(product@),
    ;

    /// The identity is on the curve and is neutral: `p + 0 == p == 0 + p`.
    proof fn law_identity(&self, p: Point<F::V>)
        requires
            self.on_curve(p),
        ensures
            self.on_curve(Point::Identity),
            self.add_view(p, Point::Identity) == Some(p),
            self.add_view(Point::Identity, p) == Some(p),
    ;

    /// A point and its inverse add to the identity: `p + (-p) == 0`.
    proof fn law_inverse(&self, p: Point<F::V>)
        requires
            self.on_curve(p),
        ensures
            self.neg_view(p) is Some,
            self.add_view(p, self.neg_view(p).unwrap()) == Some(Point::<F::V>::Identity),
    ;

    /// Addition is commutative: `p + q == q + p`.
    proof fn law_commutative(&self, p: Point<F::V>, q: Point<F::V>)
        ensures
            self.add_view(p, q) == self.add_view(q, p),
    ;

    /// `0 p == 0`, `1 p == p` and `(-n) p == -(n p)`.
    proof fn law_products(&self, n: int, p: Point<F::V>)
        requires
            self.on_curve(p),
        ensures
            self.mul_view(0, p) == Some(Point::<F::V>::Identity),
            self.mul_view(1, p) == Some(p),
            self.mul_view(n, p) is Some,
            self.mul_view(-n, p) == self.neg_view(self.mul_view(n, p).unwrap()),
    ;
}

} // verus!
