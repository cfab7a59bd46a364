use ecc::e256::E256;
use ecc::ec::{Ec, Point};
use ecc::gf256::Gf256;
use std::collections::HashSet;

/// Multiplication in GF(256) on bytes, by shifting and reducing with 0x11d.
fn reference_mul(a: u8, b: u8) -> u8 {
    let mut acc: u16 = 0;
    let mut x: u16 = a as u16;
    let mut y: u8 = b;
    while y != 0 {
        if y & 1 == 1 {
            acc ^= x;
        }
        x <<= 1;
        if x & 0x100 != 0 {
            x ^= 0x11d;
        }
        y >>= 1;
    }
    acc as u8
}

/// The pairs of bytes that satisfy `y^2 + xy = x^3 + ax^2 + b`, found with
/// arithmetic on bytes alone.
fn reference_points(a: u8, b: u8) -> HashSet<(u8, u8)> {
    let mut found = HashSet::new();
    for x in 0..=255u8 {
        for y in 0..=255u8 {
            let left = reference_mul(y, y) ^ reference_mul(x, y);
            let x2 = reference_mul(x, x);
            let right = reference_mul(x2, x) ^ reference_mul(reference_mul(a, x), x) ^ b;
            if left == right {
                found.insert((x, y));
            }
        }
    }
    found
}

fn pt(x: u8, y: u8) -> Point<Gf256> {
    Point::new(Gf256::from(x), Gf256::from(y))
}

/// The coordinates of a point as bytes; nothing for the identity.
fn pair(p: &Point<Gf256>) -> Option<(u8, u8)> {
    match p {
        Point::Identity => None,
        Point::Ordinary(x, y) => Some((x.to_byte(), y.to_byte())),
    }
}

fn curve() -> E256 {
    E256::new(Gf256::from(23), Gf256::from(107))
}

#[test]
fn point_equality_is_by_value() {
    assert_eq!(pt(1, 2), pt(1, 2));
    assert!(pt(1, 2) != pt(1, 3));
    assert!(pt(1, 2) != pt(3, 2));
    assert!(pt(0, 0) != Point::Identity);
    assert_eq!(Point::<Gf256>::Identity, Point::Identity);
    assert_eq!(pt(7, 9).clone(), pt(7, 9));
    assert_eq!(pair(&pt(7, 9)), Some((7, 9)));
}

#[test]
fn equation_on_single_points() {
    let a = Gf256::from(23);
    let b = Gf256::from(107);
    assert!(E256::equation(a.clone(), b.clone(), &Point::Identity));
    assert!(E256::equation(a.clone(), b.clone(), &pt(0, 181)));
    assert!(E256::equation(a.clone(), b.clone(), &pt(2, 236)));
    assert!(!E256::equation(a.clone(), b.clone(), &pt(0, 0)));
    assert!(!E256::equation(a.clone(), b.clone(), &pt(2, 237)));
}

#[test]
fn construction_finds_exactly_the_points_of_the_curve() {
    let c = curve();
    let points = c.points();
    let expected = reference_points(23, 107);
    assert_eq!(c.order(), 252);
    assert_eq!(points.len(), c.order());
    assert_eq!(expected.len() + 1, c.order());
    let mut seen = HashSet::new();
    let mut identities = 0;
    for p in &points {
        match pair(p) {
            None => identities += 1,
            Some(xy) => {
                assert!(expected.contains(&xy));
                assert!(seen.insert(xy));
            }
        }
    }
    assert_eq!(identities, 1);
    assert_eq!(seen, expected);
}

#[test]
fn membership() {
    let c = curve();
    assert!(c.contains(&Point::Identity));
    assert!(c.contains(&pt(0, 181)));
    assert!(c.contains(&pt(3, 17)));
    assert!(!c.contains(&pt(3, 19)));
}

#[test]
fn operations_fail_off_the_curve() {
    let c = curve();
    let on = pt(0, 181);
    let off = pt(1, 1);
    assert_eq!(c.add(off.clone(), on.clone()), None);
    assert_eq!(c.add(on.clone(), off.clone()), None);
    assert_eq!(c.add(off.clone(), Point::Identity), None);
    assert_eq!(c.add(Point::Identity, off.clone()), None);
    assert_eq!(c.neg(off.clone()), None);
    assert_eq!(c.mul(3, off.clone()), None);
    assert_eq!(c.mul(0, off.clone()), None);
    assert!(!c.is_generator(&off));
}

#[test]
fn identity_is_neutral() {
    let c = curve();
    for p in c.points() {
        assert_eq!(c.add(p.clone(), Point::Identity), Some(p.clone()));
        assert_eq!(c.add(Point::Identity, p.clone()), Some(p.clone()));
    }
}

#[test]
fn a_point_and_its_inverse_add_to_the_identity() {
    let c = curve();
    for p in c.points() {
        let n = c.neg(p.clone()).unwrap();
        assert!(c.contains(&n));
        assert_eq!(c.add(p.clone(), n.clone()), Some(Point::Identity));
        assert_eq!(c.neg(n), Some(p));
    }
}

#[test]
fn negation_reflects() {
    let c = curve();
    assert_eq!(c.neg(Point::Identity), Some(Point::Identity));
    assert_eq!(c.neg(pt(2, 236)), Some(pt(2, 238)));
    assert_eq!(c.neg(pt(0, 181)), Some(pt(0, 181)));
}

#[test]
fn sums_of_chosen_points() {
    let c = curve();
    assert_eq!(c.add(pt(0, 181), pt(2, 236)), Some(pt(212, 13)));
    assert_eq!(c.add(pt(0, 181), pt(0, 181)), Some(Point::Identity));
    let doubled = c.add(pt(2, 236), pt(2, 236)).unwrap();
    assert!(c.contains(&doubled));
    assert_eq!(c.mul(2, pt(2, 236)), Some(doubled));
}

#[test]
fn addition_is_commutative_and_closed() {
    let c = curve();
    let points = c.points();
    for p in points.iter().take(12) {
        for q in points.iter().step_by(5) {
            let left = c.add(p.clone(), q.clone());
            let right = c.add(q.clone(), p.clone());
            assert_eq!(left, right);
            assert!(c.contains(&left.unwrap()));
        }
    }
}

#[test]
fn scalar_multiplication() {
    let c = curve();
    let p = pt(2, 236);
    assert_eq!(c.mul(0, p.clone()), Some(Point::Identity));
    assert_eq!(c.mul(1, p.clone()), Some(p.clone()));
    assert_eq!(c.mul(-1, p.clone()), c.neg(p.clone()));
    assert_eq!(c.mul(5, Point::Identity), Some(Point::Identity));
    assert_eq!(c.mul(0, Point::Identity), Some(Point::Identity));
    // The order of (2, 236) is 21.
    assert_eq!(c.mul(21, p.clone()), Some(Point::Identity));
    assert_eq!(c.mul(22, p.clone()), Some(p.clone()));
    for n in 1..8isize {
        let forward = c.mul(n, p.clone()).unwrap();
        assert_eq!(c.mul(-n, p.clone()), c.neg(forward.clone()));
        let backward = c.mul(-n, p.clone()).unwrap();
        assert_eq!(c.neg(backward.clone()), Some(forward.clone()));
        assert_eq!(c.add(forward.clone(), backward), Some(Point::Identity));
        let next = c.mul(n + 1, p.clone());
        assert_eq!(c.add(forward, p.clone()), next);
    }
}

#[test]
fn products_stay_on_the_curve() {
    let c = curve();
    for p in c.points().iter().step_by(17) {
        for n in [-30isize, -2, 3, 11, 84, 85, 252] {
            let product = c.mul(n, p.clone()).unwrap();
            assert!(c.contains(&product));
        }
        // Every order in this group divides 84.
        assert_eq!(c.mul(84, p.clone()), Some(Point::Identity));
        assert_eq!(c.mul(-84, p.clone()), Some(Point::Identity));
    }
}

#[test]
fn doubling_uses_the_tangent() {
    let c = curve();
    // (2, 236): k = x + y / x, x2 = k^2 + k + a, y2 = k (x + x2) + x2 + y.
    let x = 2u8;
    let y = 236u8;
    let inverse = (1..=255u8).find(|&i| reference_mul(i, x) == 1).unwrap();
    let k = x ^ reference_mul(y, inverse);
    let x2 = reference_mul(k, k) ^ k ^ 23;
    let y2 = reference_mul(k, x ^ x2) ^ x2 ^ y;
    assert_eq!(c.add(pt(x, y), pt(x, y)), Some(pt(x2, y2)));
}

#[test]
fn chord_formula() {
    let c = curve();
    let (x0, y0, x1, y1) = (2u8, 236u8, 3u8, 17u8);
    let d = x0 ^ x1;
    let inverse = (1..=255u8).find(|&i| reference_mul(i, d) == 1).unwrap();
    let k = reference_mul(y0 ^ y1, inverse);
    let x2 = reference_mul(k, k) ^ k ^ x0 ^ x1 ^ 23;
    let y2 = reference_mul(k, x0 ^ x2) ^ x2 ^ y0;
    assert_eq!(c.add(pt(x0, y0), pt(x1, y1)), Some(pt(x2, y2)));
}

#[test]
fn a_curve_of_one_point_more_than_the_pairs() {
    // b = 0 makes the curve singular; its points are found all the same.
    let c = E256::new(Gf256::from(0), Gf256::from(0));
    let expected = reference_points(0, 0);
    assert_eq!(c.order(), expected.len() + 1);
    assert!(c.contains(&pt(0, 0)));
}

#[test]
fn no_point_generates_a_group_that_is_not_cyclic() {
    let c = curve();
    let order = c.order();
    for p in c.points() {
        // The length of the cycle of p under repeated addition.
        let mut walk = p.clone();
        let mut length = 1;
        while walk != Point::Identity {
            walk = c.add(walk, p.clone()).unwrap();
            length += 1;
        }
        assert_eq!(c.is_generator(&p), length == order);
        assert!(length <= 84);
    }
}

#[test]
fn generators_of_a_cyclic_group() {
    let c = E256::new(Gf256::from(1), Gf256::from(2));
    assert_eq!(c.order(), 240);
    assert!(c.is_generator(&pt(33, 27)));
    assert!(c.is_generator(&pt(33, 58)));
    assert!(!c.is_generator(&pt(0, 133)));
    assert!(!c.is_generator(&Point::Identity));
    let generators = c.points().iter().filter(|p| c.is_generator(p)).count();
    assert_eq!(generators, 64);
}
