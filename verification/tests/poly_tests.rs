use ecc::bit_wrapper::{BitWrapper, IntoBit};
use ecc::field::{DivisionByZero, Field, One, Zero};
use ecc::gf256::Gf256;
use ecc::operation::{DivRem, Egcd, ModInv};
use ecc::poly::Poly;

/// The binary polynomial with the digits of `n` as coefficients.
fn bin(n: i32) -> Poly<BitWrapper> {
    Poly::new(n.into_bit())
}

/// The number whose digits are the coefficients of a binary polynomial.
fn num(p: &Poly<BitWrapper>) -> u32 {
    (0..p.len()).map(|i| if bool::from(p.coefficient(i)) { 1u32 << i } else { 0 }).sum()
}

/// The polynomial over GF(256) with the given bytes as coefficients.
fn poly(c: &[u8]) -> Poly<Gf256> {
    Poly::new(c.iter().map(|&x| Gf256::from(x)).collect())
}

fn bytes(p: &Poly<Gf256>) -> Vec<u8> {
    (0..p.len()).map(|i| p.coefficient(i).to_byte()).collect()
}

#[test]
fn new_keeps_the_coefficients() {
    let p = poly(&[1, 2, 3, 0]);
    assert_eq!(p.len(), 4);
    assert_eq!(bytes(&p), vec![1, 2, 3, 0]);
    let empty: Poly<Gf256> = Poly::new(vec![]);
    assert_eq!(empty.len(), 0);
}

#[test]
fn zero_and_one_have_one_coefficient() {
    assert_eq!(bytes(&Poly::<Gf256>::zero()), vec![0]);
    assert_eq!(bytes(&Poly::<Gf256>::one()), vec![1]);
}

#[test]
fn equality_ignores_zeros_at_the_end() {
    assert_eq!(poly(&[1, 2]), poly(&[1, 2, 0, 0]));
    assert_eq!(poly(&[1, 2, 0]), poly(&[1, 2]));
    assert_eq!(poly(&[]), poly(&[0, 0]));
    assert!(poly(&[1, 2]) != poly(&[1, 2, 0, 1]));
    assert!(poly(&[1, 2]) != poly(&[2, 1]));
    assert!(poly(&[0, 1]) != poly(&[0]));
}

#[test]
fn order_is_the_highest_nonzero_degree() {
    assert_eq!(poly(&[1, 2, 3]).order(), 2);
    assert_eq!(poly(&[1, 2, 0, 0]).order(), 1);
    assert_eq!(poly(&[5]).order(), 0);
    assert_eq!(poly(&[0, 0, 0]).order(), 0);
    assert_eq!(poly(&[]).order(), 0);
}

#[test]
fn coefficients() {
    let p = poly(&[7, 8, 9, 0]);
    assert_eq!(p.coefficient(1).to_byte(), 8);
    assert_eq!(p.coefficient(3).to_byte(), 0);
    assert_eq!(p.coefficient(10).to_byte(), 0);
    assert_eq!(p.first_coefficient().to_byte(), 7);
    assert_eq!(p.last_coefficient().to_byte(), 9);
    assert_eq!(poly(&[]).first_coefficient().to_byte(), 0);
    assert_eq!(poly(&[0, 0]).last_coefficient().to_byte(), 0);
}

#[test]
fn sub_item_is_one_term() {
    let p = poly(&[7, 8, 9]);
    assert_eq!(bytes(&p.sub_item(0)), vec![7]);
    assert_eq!(bytes(&p.sub_item(2)), vec![0, 0, 9]);
    assert_eq!(bytes(&p.sub_item(3)), vec![0]);
}

#[test]
fn align_pads_the_shorter() {
    let mut p = poly(&[1]);
    let mut q = poly(&[2, 3, 4]);
    p.align(&mut q, Gf256::from(9));
    assert_eq!(bytes(&p), vec![1, 9, 9]);
    assert_eq!(bytes(&q), vec![2, 3, 4]);
    let mut p = poly(&[1, 2]);
    let mut q = poly(&[]);
    p.align(&mut q, Gf256::from(0));
    assert_eq!(bytes(&p), vec![1, 2]);
    assert_eq!(bytes(&q), vec![0, 0]);
}

#[test]
fn sums_and_differences() {
    assert_eq!(bytes(&poly(&[1, 2, 3]).add(poly(&[4, 4]))), vec![5, 6, 3]);
    assert_eq!(bytes(&poly(&[4, 4]).sub(poly(&[1, 2, 3]))), vec![5, 6, 3]);
    assert_eq!(bytes(&poly(&[]).add(poly(&[]))), Vec::<u8>::new());
    assert_eq!(num(&bin(0b1011).add(bin(0b110))), 0b1101);
}

#[test]
fn negation() {
    assert_eq!(bytes(&poly(&[1, 2, 3]).neg()), vec![1, 2, 3]);
    assert_eq!(num(&bin(0b1011).neg()), 0b1011);
}

#[test]
fn shifts() {
    assert_eq!(bytes(&poly(&[1, 2]).shl(2)), vec![0, 0, 1, 2]);
    assert_eq!(bytes(&poly(&[1, 2]).shl(0)), vec![1, 2]);
    assert_eq!(bytes(&poly(&[1, 2, 3]).shr(1)), vec![2, 3]);
    assert_eq!(bytes(&poly(&[1, 2, 3]).shr(0)), vec![1, 2, 3]);
    assert_eq!(bytes(&poly(&[1, 2, 3]).shr(3)), vec![0]);
    assert_eq!(bytes(&poly(&[1, 2, 3]).shr(7)), vec![0]);
    assert_eq!(bytes(&poly(&[]).shr(1)), vec![0]);
    assert_eq!(bytes(&poly(&[]).shr(0)), Vec::<u8>::new());
}

#[test]
fn scaling() {
    assert_eq!(bytes(&poly(&[1, 2, 3]).scale(&Gf256::from(2))), vec![2, 4, 6]);
    assert_eq!(bytes(&Poly::constant(Gf256::from(5))), vec![5]);
}

#[test]
fn coefficient_wise_and() {
    assert_eq!(num(&bin(0b1101).bitand(bin(0b1011))), 0b1001);
    assert_eq!(num(&bin(0b1).bitand(bin(0b1110))), 0);
    assert_eq!(bin(0b1).bitand(bin(0b1110)).len(), 4);
}

#[test]
fn products() {
    // (x + 1)(x + 1) = x^2 + 1 over GF(2).
    assert_eq!(num(&bin(0b11).mul(bin(0b11))), 0b101);
    // (x^2 + x + 1)(x + 1) = x^3 + 1.
    assert_eq!(num(&bin(0b111).mul(bin(0b11))), 0b1001);
    assert_eq!(num(&bin(0b1011).mul(bin(1))), 0b1011);
    assert_eq!(num(&bin(0b1011).mul(bin(0))), 0);
    // (1 + 2x)(3 + x) = 3 + (1 + 6)x + 2x^2 over GF(256).
    assert_eq!(bytes(&poly(&[1, 2]).mul(poly(&[3, 1]))), vec![3, 1 ^ 6, 2]);
    // The product with the empty sequence is the zero polynomial.
    assert_eq!(bytes(&poly(&[1, 2]).mul(poly(&[]))), vec![0]);
}

#[test]
fn sums_and_products_of_lists() {
    assert_eq!(bytes(&Poly::sum(vec![poly(&[1]), poly(&[2, 3]), poly(&[4])])), vec![7, 3]);
    assert_eq!(bytes(&Poly::<Gf256>::sum(vec![])), vec![0]);
    assert_eq!(num(&Poly::product(vec![bin(0b11), bin(0b11), bin(0b11)])), 0b1111);
    assert_eq!(bytes(&Poly::<Gf256>::product(vec![])), vec![1]);
}

#[test]
fn division_with_remainder() {
    // x^3 + x + 1 divided by x + 1: quotient x^2 + x, remainder 1.
    let (q, r) = bin(0b1011).divrem(bin(0b11)).unwrap();
    assert_eq!(num(&q), 0b110);
    assert_eq!(num(&r), 1);
    // A dividend of lower degree is its own remainder.
    let (q, r) = bin(0b101).divrem(bin(0b10011)).unwrap();
    assert_eq!(num(&q), 0);
    assert_eq!(num(&r), 0b101);
    // Division by a constant leaves no remainder.
    let (q, r) = poly(&[6, 4, 2]).divrem(poly(&[2])).unwrap();
    assert_eq!(q, poly(&[3, 2, 1]));
    assert_eq!(r, poly(&[0]));
    // The zero dividend.
    let (q, r) = poly(&[0, 0]).divrem(poly(&[1, 1])).unwrap();
    assert_eq!(bytes(&q), vec![0]);
    assert_eq!(bytes(&r), vec![0]);
}

#[test]
fn division_identity_holds() {
    let cases: Vec<(Poly<Gf256>, Poly<Gf256>)> = vec![
        (poly(&[1, 2, 3, 4, 5]), poly(&[7, 1])),
        (poly(&[9, 0, 0, 200, 13, 0]), poly(&[3, 0, 5, 0])),
        (poly(&[1, 2]), poly(&[0, 0, 0, 9])),
        (poly(&[255, 254, 253]), poly(&[17])),
    ];
    for (p, d) in cases {
        let (q, r) = p.clone().divrem(d.clone()).unwrap();
        assert_eq!(d.clone().mul(q).add(r.clone()), p);
        assert!(r.is_zero() || r.order() < d.order());
    }
}

#[test]
fn binary_division_identity_holds() {
    for p in [0b1, 0b1011, 0b110101, 0b11111111, 0b1000000000001] {
        for d in [0b1, 0b10, 0b11, 0b111, 0b100011101] {
            let (q, r) = bin(p).divrem(bin(d)).unwrap();
            assert_eq!(bin(d).mul(q).add(r.clone()), bin(p));
            assert!(r.is_zero() || r.order() < bin(d).order());
        }
    }
}

#[test]
fn quotient_and_remainder_alone() {
    assert_eq!(bin(0b1011).div(bin(0b11)).map(|q| num(&q)), Ok(0b110));
    assert_eq!(bin(0b1011).rem(bin(0b11)).map(|r| num(&r)), Ok(1));
}

#[test]
fn division_by_zero_fails() {
    assert_eq!(bin(0b1011).divrem(bin(0)).err(), Some(DivisionByZero));
    assert_eq!(bin(0).divrem(bin(0)).err(), Some(DivisionByZero));
    assert_eq!(poly(&[1, 2]).divrem(poly(&[0, 0, 0])).err(), Some(DivisionByZero));
    assert_eq!(poly(&[1, 2]).divrem(poly(&[])).err(), Some(DivisionByZero));
    assert_eq!(bin(0b1011).div(bin(0)).err(), Some(DivisionByZero));
    assert_eq!(bin(0b1011).rem(bin(0)).err(), Some(DivisionByZero));
    assert_eq!(bin(0b1011).modinv(bin(0)).err(), Some(DivisionByZero));
}

#[test]
fn extended_euclid_base_case() {
    let (s, t) = bin(0b1011).egcd(bin(0));
    assert_eq!(num(&s), 1);
    assert_eq!(num(&t), 0);
}

#[test]
fn extended_euclid_gives_bezout_coefficients() {
    // x^3 + x + 1 and x^2 + x + 1 are coprime.
    let a = 0b1011;
    let b = 0b111;
    let (s, t) = bin(a).egcd(bin(b));
    assert_eq!(s.mul(bin(a)).add(t.mul(bin(b))), bin(1));
    // x^2 + 1 and x + 1 have the common divisor x + 1.
    let (s, t) = bin(0b101).egcd(bin(0b11));
    assert_eq!(s.mul(bin(0b101)).add(t.mul(bin(0b11))), bin(0b11));
}

#[test]
fn modular_inverse() {
    // x * (x^2 + 1) = x^3 + x = 1 modulo x^3 + x + 1.
    assert_eq!(bin(0b10).modinv(bin(0b1011)).map(|v| num(&v)), Ok(0b101));
    for x in 1..256 {
        let inverse = bin(x).modinv(bin(285)).unwrap();
        let product = bin(x).mul(inverse).rem(bin(285)).unwrap();
        assert_eq!(product, bin(1));
    }
}

#[test]
fn clone_is_equal() {
    let p = poly(&[1, 2, 3, 0]);
    let q = p.clone();
    assert_eq!(bytes(&q), vec![1, 2, 3, 0]);
    assert_eq!(p, q);
}
