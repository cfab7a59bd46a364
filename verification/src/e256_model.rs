//! The mathematical model of a curve `y^2 + xy = x^3 + ax^2 + b` over
//! GF(256): its equation and its group law, on points whose coordinates are
//! bytes.
use crate::ec::Point;
use crate::gf256_model::{gf_div, gf_mul};
use vstd::prelude::*;

verus! {

/// Whether `(x, y)` satisfies `y^2 + xy = x^3 + ax^2 + b`.
pub open spec fn curve_equation(a: u8, b: u8, x: u8, y: u8) -> bool {
    (gf_mul(y, y) ^ gf_mul(x, y)) == ((gf_mul(gf_mul(x, x), x) ^ gf_mul(gf_mul(a, x), x)) ^ b)
}

/// Whether a point is on the curve: the identity always is.
pub open spec fn on_curve(a: u8, b: u8, p: Point<u8>) -> bool {
    match p {
        Point::Identity => true,
        Point::Ordinary(x, y) => curve_equation(a, b, x, y),
    }
}

/// The pair of bytes that a number under 65536 stands for: the high byte is
/// `x`, the low byte `y`.
pub open spec fn point_at(index: u32) -> Point<u8> {
    Point::Ordinary((index / 256) as u8, (index % 256) as u8)
}

/// Whether the pair of bytes that `index` stands for is on the curve.
pub open spec fn holds_at(a: u8, b: u8, index: u32) -> bool {
    curve_equation(a, b, (index / 256) as u8, (index % 256) as u8)
}

/// The reflection of a point: `(x, y)` goes to `(x, x + y)`.
pub open spec fn reflect(p: Point<u8>) -> Point<u8> {
    match p {
        Point::Identity => Point::Identity,
        Point::Ordinary(x, y) => Point::Ordinary(x, x ^ y),
    }
}

/// The inverse of a point of the curve; nothing for a point off the curve.
pub open spec fn point_neg(a: u8, b: u8, p: Point<u8>) -> Option<Point<u8>> {
    if on_curve(a, b, p) {
        Some(reflect(p))
    } else {
        None
    }
}

/// The slope of the line through two ordinary points: of the tangent,
/// `x0 + y0 / x1`, if the points are equal, and else of the chord,
/// `(y0 + y1) / (x0 + x1)`.
pub open spec fn slope(x0: u8, y0: u8, x1: u8, y1: u8) -> u8 {
    if x0 == x1 && y0 == y1 {
        x0 ^ gf_div(y0, x1)
    } else {
        gf_div(y0 ^ y1, x0 ^ x1)
    }
}

/// The point that the line of slope `k` through `(x0, y0)` and a point of
/// abscissa `x1` leads to: `x2 = k^2 + k + x0 + x1 + a` and
/// `y2 = k (x0 + x2) + x2 + y0`.
pub open spec fn third_point(a: u8, k: u8, x0: u8, y0: u8, x1: u8) -> Point<u8> {
    let x2 = (((gf_mul(k, k) ^ k) ^ x0) ^ x1) ^ a;
    let y2 = (gf_mul(k, x0 ^ x2) ^ x2) ^ y0;
    Point::Ordinary(x2, y2)
}

/// The sum of two ordinary points: the identity if one is the reflection of
/// the other, and else the point that the line through them leads to.
pub open spec fn ordinary_sum(a: u8, x0: u8, y0: u8, x1: u8, y1: u8) -> Point<u8> {
    if x0 == x1 && y0 == (x1 ^ y1) {
        Point::Identity
    } else {
        third_point(a, slope(x0, y0, x1, y1), x0, y0, x1)
    }
}

/// The sum of two points by the group law, whether they are on the curve or not.
pub open spec fn point_sum(a: u8, p: Point<u8>, q: Point<u8>) -> Point<u8> {
    match p {
        Point::Identity => q,
        Point::Ordinary(x0, y0) => match q {
            Point::Identity => p,
            Point::Ordinary(x1, y1) => ordinary_sum(a, x0, y0, x1, y1),
        },
    }
}

/// The sum of two points of the curve; nothing if one of them is off the curve.
pub open spec fn point_add(a: u8, b: u8, p: Point<u8>, q: Point<u8>) -> Option<Point<u8>> {
    if on_curve(a, b, p) && on_curve(a, b, q) {
        Some(point_sum(a, p, q))
    } else {
        None
    }
}

/// `p` added `n` times to the identity, each time on the right of the sum
/// so far.
pub open spec fn multiple(a: u8, p: Point<u8>, n: nat) -> Point<u8>
    decreases n,
{
    if n == 0 {
        Point::Identity
    } else {
        point_sum(a, multiple(a, p, (n - 1) as nat), p)
    }
}

/// The absolute value.
pub open spec fn magnitude(n: int) -> nat {
    if n < 0 {
        (-n) as nat
    } else {
        n as nat
    }
}

/// The product of a number and a point of the curve: the point added `|n|`
/// times to the identity, reflected if `n` is negative; nothing for a point
/// off the curve.
pub open spec fn point_mul(a: u8, b: u8, n: int, p: Point<u8>) -> Option<Point<u8>> {
    if on_curve(a, b, p) {
        if n < 0 {
            Some(reflect(multiple(a, p, magnitude(n))))
        } else {
            Some(multiple(a, p, magnitude(n)))
        }
    } else {
        None
    }
}

/// Whether the first `n` multiples of a point of the curve, from the point
/// itself on, are all different.
pub open spec fn generates(a: u8, b: u8, p: Point<u8>, n: nat) -> bool {
    &&& on_curve(a, b, p)
    &&& forall|i: int, j: int|
        1 <= i < j <= n ==> #[trigger] multiple(a, p, i as nat) != #[trigger] multiple(
            a,
            p,
            j as nat,
        )
}

/// A number for each point: 65536 for the identity, and for `(x, y)` the
/// number with the high byte `x` and the low byte `y`.
pub open spec fn code(p: Point<u8>) -> int {
    match p {
        Point::Identity => 65536,
        Point::Ordinary(x, y) => x * 256 + y,
    }
}

} // verus!
