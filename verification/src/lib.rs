//! Arithmetic of the binary field GF(256) and of elliptic curves over it.
//!
//! The crate is layered.  Single bits form the field GF(2) ([`bit_wrapper`]).
//! Polynomials over a field ([`poly`]) form a ring with long division and an
//! extended Euclidean algorithm ([`operation`]).  GF(256) ([`gf256`]) is the
//! ring of binary polynomials reduced modulo a fixed polynomial of degree
//! eight.  A curve `y^2 + xy = x^3 + ax^2 + b` over GF(256) ([`e256`]) carries
//! a group law on its points ([`ec`]).
//!
//! Every type is read through a view, its mathematical value, and every
//! function says what it returns as a function of views.  Those functions on
//! values are in [`poly_model`], [`gf256_model`] and [`e256_model`]; what
//! holds of them is proved in the other modules: the laws of a field
//! ([`field`]) for the bits and for GF(256) ([`gf256_laws`],
//! [`gf256_field`]), the laws of a commutative ring for polynomials
//! ([`poly_laws`]), the division identity ([`poly_remainder`]), Bezout's
//! identity ([`poly_euclid`]), and the laws of the group of a curve
//! ([`e256_closure`], [`e256_laws`]).
pub mod bit_wrapper;
pub mod e256;
pub mod e256_closure;
pub mod e256_laws;
pub mod e256_model;
pub mod ec;
pub mod field;
pub mod gf256;
pub mod gf256_field;
pub mod gf256_laws;
pub mod gf256_model;
pub mod operation;
pub mod poly;
pub mod poly_coeff;
pub mod poly_congruence;
pub mod poly_euclid;
pub mod poly_laws;
pub mod poly_model;
pub mod poly_order;
pub mod poly_remainder;
pub mod sums;
