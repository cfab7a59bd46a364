use ecc::bit_wrapper::{BitWrapper, IntoBit};
use ecc::field::{DivisionByZero, Field, One, Zero};
use ecc::gf256::Gf256;

/// Multiplication in GF(256) on bytes, by shifting and reducing with 0x11d.
fn reference_mul(a: u8, b: u8) -> u8 {
    let mut acc: u16 = 0;
    let mut x: u16 = a as u16;
    let mut y: u8 = b;
    while y != 0 {
        if y & 1 == 1 {
            acc ^= x;
        }
        x <<= 1;
        if x & 0x100 != 0 {
            x ^= 0x11d;
        }
        y >>= 1;
    }
    acc as u8
}

fn gf(x: u8) -> Gf256 {
    Gf256::from(x)
}

#[test]
fn bit_identities() {
    assert!(bool::from(BitWrapper::one()));
    assert!(!bool::from(BitWrapper::zero()));
    assert_eq!(<u8 as One>::one(), 1u8);
    assert_eq!(<u8 as Zero>::zero(), 0u8);
    assert_eq!(<i32 as One>::one(), 1i32);
    assert_eq!(<i32 as Zero>::zero(), 0i32);
}

#[test]
fn bit_addition_is_exclusive_or() {
    let t = BitWrapper::one();
    let f = BitWrapper::zero();
    assert_eq!(t.add(t), f);
    assert_eq!(t.add(f), t);
    assert_eq!(f.add(t), t);
    assert_eq!(f.add(f), f);
    assert_eq!(t.sub(t), f);
    assert_eq!(f.sub(t), t);
}

#[test]
fn bit_multiplication_is_and() {
    let t = BitWrapper::one();
    let f = BitWrapper::zero();
    assert_eq!(t.mul(t), t);
    assert_eq!(t.mul(f), f);
    assert_eq!(f.mul(t), f);
    assert_eq!(f.mul(f), f);
}

#[test]
fn bit_division() {
    let t = BitWrapper::one();
    let f = BitWrapper::zero();
    assert_eq!(t.div(t), Ok(t));
    assert_eq!(f.div(t), Ok(f));
    assert_eq!(t.div(f), Err(DivisionByZero));
    assert_eq!(f.div(f), Err(DivisionByZero));
}

#[test]
fn bits_of_bytes() {
    let bits: Vec<bool> = 6u8.into_bit().into_iter().map(bool::from).collect();
    assert_eq!(bits, vec![false, true, true]);
    let bits: Vec<bool> = 0u8.into_bit().into_iter().map(bool::from).collect();
    assert_eq!(bits, vec![false]);
    let bits: Vec<bool> = 255u8.into_bit().into_iter().map(bool::from).collect();
    assert_eq!(bits, vec![true; 8]);
    let bits: Vec<bool> = 285i32.into_bit().into_iter().map(bool::from).collect();
    assert_eq!(bits, vec![true, false, true, true, true, false, false, false, true]);
}

#[test]
fn byte_round_trip() {
    for b in 0..=255u8 {
        assert_eq!(u8::from(Gf256::from(b)), b);
        assert_eq!(Gf256::from(b).to_byte(), b);
    }
}

#[test]
fn gf256_identities() {
    assert_eq!(Gf256::zero().to_byte(), 0);
    assert_eq!(Gf256::one().to_byte(), 1);
}

#[test]
fn gf256_addition_is_exclusive_or() {
    assert_eq!(gf(0x53).add(gf(0xca)).to_byte(), 0x53 ^ 0xca);
    assert_eq!(gf(200).sub(gf(7)).to_byte(), 200 ^ 7);
    assert_eq!(gf(9).add(gf(9)).to_byte(), 0);
    // A sum of short polynomials and a long one keeps its value.
    assert_eq!(gf(1).add(gf(128)).add(gf(1)).to_byte(), 128);
}

#[test]
fn gf256_products() {
    assert_eq!(gf(2).mul(gf(128)).to_byte(), 29);
    assert_eq!(gf(3).mul(gf(7)).to_byte(), 9);
    assert_eq!(gf(87).mul(gf(131)).to_byte(), 49);
    assert_eq!(gf(255).mul(gf(255)).to_byte(), 226);
    assert_eq!(gf(0).mul(gf(77)).to_byte(), 0);
    assert_eq!(gf(77).mul(gf(1)).to_byte(), 77);
}

#[test]
fn gf256_products_agree_with_reference() {
    for a in (0..=255u8).step_by(7) {
        for b in (0..=255u8).step_by(5) {
            assert_eq!(gf(a).mul(gf(b)).to_byte(), reference_mul(a, b));
        }
    }
}

#[test]
fn gf256_quotients() {
    assert_eq!(gf(1).div(gf(2)).map(|q| q.to_byte()), Ok(142));
    assert_eq!(gf(200).div(gf(7)).map(|q| q.to_byte()), Ok(71));
    assert_eq!(gf(1).div(gf(23)).map(|q| q.to_byte()), Ok(102));
    assert_eq!(gf(0).div(gf(9)).map(|q| q.to_byte()), Ok(0));
}

#[test]
fn gf256_division_by_zero_fails() {
    assert_eq!(gf(5).div(gf(0)).map(|q| q.to_byte()), Err(DivisionByZero));
    assert_eq!(gf(0).div(Gf256::zero()).map(|q| q.to_byte()), Err(DivisionByZero));
    // Zero in a longer representation is zero still.
    let zero = gf(200).add(gf(200));
    assert_eq!(gf(5).div(zero).map(|q| q.to_byte()), Err(DivisionByZero));
}

#[test]
fn gf256_every_element_divides_itself_to_one() {
    for x in 1..=255u8 {
        assert_eq!(gf(x).div(gf(x)).map(|q| q.to_byte()), Ok(1));
    }
}

#[test]
fn gf256_inverse_times_element_is_one() {
    for x in 1..=255u8 {
        let inverse = Gf256::one().div(gf(x)).unwrap();
        assert_eq!(inverse.mul(gf(x)).to_byte(), 1);
    }
}

#[test]
fn gf256_addition_laws() {
    for &(x, y, z) in &[(1u8, 2u8, 3u8), (87, 131, 200), (255, 254, 253), (16, 32, 64)] {
        assert_eq!(gf(x).add(gf(y)), gf(y).add(gf(x)));
        assert_eq!(gf(x).add(gf(y)).add(gf(z)), gf(x).add(gf(y).add(gf(z))));
    }
}

#[test]
fn gf256_distributive_law() {
    for &(x, y, z) in &[(1u8, 2u8, 3u8), (87, 131, 200), (255, 254, 253), (16, 32, 64)] {
        assert_eq!(gf(x).mul(gf(y).add(gf(z))), gf(x).mul(gf(y)).add(gf(x).mul(gf(z))));
    }
}

#[test]
fn gf256_multiplication_laws() {
    for &(x, y, z) in &[(1u8, 2u8, 3u8), (87, 131, 200), (255, 254, 253), (16, 32, 64)] {
        assert_eq!(gf(x).mul(gf(y)), gf(y).mul(gf(x)));
        assert_eq!(gf(x).mul(gf(y)).mul(gf(z)), gf(x).mul(gf(y).mul(gf(z))));
    }
}

#[test]
fn gf256_equality_is_by_value() {
    assert_eq!(gf(7), gf(3).add(gf(4)));
    assert!(gf(7) != gf(8));
    assert!(gf(7).same(&gf(7).clone()));
    assert!(!gf(0).same(&gf(1)));
}

#[test]
fn gf256_primitive_is_285() {
    let p = Gf256::primitive();
    assert_eq!(p.len(), 9);
    assert_eq!(p.order(), 8);
    let bits: Vec<bool> = (0..9).map(|i| bool::from(p.coefficient(i))).collect();
    assert_eq!(bits, vec![true, false, true, true, true, false, false, false, true]);
    assert_eq!(ecc::gf256::PRIMITIVE, 285);
}
