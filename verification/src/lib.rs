//! An interactive Chaum-Pedersen zero-knowledge-proof authentication
//! library.
//!
//! A prover convinces a verifier that it knows a secret scalar `x` with
//! `y1 = g^x mod p` and `y2 = h^x mod p`, without revealing `x`, by a
//! three-move protocol: commitment `(r1, r2)`, challenge `c`, response
//! `s = k - c * x` (signed, not reduced). On success the verifier mints
//! an opaque session identifier.
//!
//! Layout:
//! - [`natural`] and [`signed`]: arbitrary-size integers, their values as
//!   views, with the arithmetic of the `num` crates behind small trusted
//!   wrappers;
//! - [`number_theory`]: gcd, primality, and the Bezout identity;
//! - [`modular`]: modular exponentiation with signed exponents and the
//!   extended-Euclidean modular inverse, verified;
//! - [`group`]: the shared parameters `(p, g, h)`;
//! - [`codec`]: the decimal-string wire encoding;
//! - [`rng`]: 128-bit random draws;
//! - [`prover`] and [`zkp_verifier`]: the two peers, the verifier as a
//!   state machine over a map model;
//! - [`http`]: the front-end reply models and their status codes;
//! - [`laws`]: the protocol's laws, proved: soundness, the collision an
//!   accepted wrong secret forces, inverse correctness, the signed-power
//!   round trip, idempotent registration, and the NotFound rule.

pub mod natural;
pub mod signed;
pub mod number_theory;
pub mod modular;
pub mod group;
pub mod codec;
pub mod rng;
pub mod zkp_verifier;
pub mod prover;
pub mod http;
pub mod laws;
