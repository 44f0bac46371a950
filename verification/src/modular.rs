//! Modular exponentiation with signed exponents, and the modular inverse
//! by the extended Euclidean algorithm.
//!
//! A negative exponent `e` means the inverse of `base^(-e) mod m`; the
//! protocol needs this because the response `s = k - c * x` travels
//! unreduced and may be negative.

use vstd::prelude::*;
use vstd::arithmetic::power::pow;
use vstd::arithmetic::div_mod::{
    lemma_small_mod, lemma_mod_bound, lemma_mul_mod_noop_left,
    lemma_fundamental_div_mod,
};
use crate::natural::Natural;
use crate::signed::SignedBig;
use crate::number_theory::{gcd, inv_mod, lemma_inv_mod_correct, lemma_inverse_unique};

verus! {

/// A power of `b` that never leaves negative values.
pub proof fn lemma_pow_nonneg(b: int, e: nat)
    requires
        b >= 0,
    ensures
        pow(b, e) >= 0,
    decreases e,
{
    reveal(pow);
    if e > 0 {
        lemma_pow_nonneg(b, (e - 1) as nat);
        assert(pow(b, e) == b * pow(b, (e - 1) as nat));
        vstd::arithmetic::mul::lemma_mul_nonnegative(b, pow(b, (e - 1) as nat));
    }
}

/// `b^e mod m` for a non-negative exponent.
pub open spec fn pow_mod(b: nat, e: nat, m: nat) -> nat
    recommends
        m > 0,
{
    (pow(b as int, e) % (m as int)) as nat
}

/// Whether `b^e mod m` is defined for a signed exponent: a negative
/// exponent needs `b^(-e) mod m` to be invertible.
pub open spec fn signed_pow_ok(b: nat, e: int, m: nat) -> bool
    recommends
        m >= 2,
{
    e >= 0 || gcd(pow_mod(b, (-e) as nat, m), m) == 1
}

/// `b^e mod m` for a signed exponent: for `e < 0`, the modular inverse
/// of `b^(-e) mod m`.
pub open spec fn signed_pow_mod(b: nat, e: int, m: nat) -> nat
    recommends
        m >= 2,
        signed_pow_ok(b, e, m),
{
    if e >= 0 {
        pow_mod(b, e as nat, m)
    } else {
        inv_mod(pow_mod(b, (-e) as nat, m), m)
    }
}

/// The modular inverse of `a` modulo `m`, by the extended Euclidean
/// algorithm, as the unique representative in `[0, m)`; `None` exactly
/// when `a` and `m` share a factor.
pub fn modinv(a: &Natural, m: &Natural) -> (r: Option<Natural>)
    requires
        a.wf(),
        m.wf(),
        m@ >= 2,
    ensures
        r is Some <==> gcd(a@, m@) == 1,
        r is Some ==> {
            &&& r.unwrap().wf()
            &&& r.unwrap()@ < m@
            &&& r.unwrap()@ == inv_mod(a@, m@)
            &&& (r.unwrap()@ * a@) % m@ == 1
        },
{
    let mut r0 = m.clone_value();
    let mut r1 = a.clone_value();
    let mut s0 = SignedBig::from_natural(Natural::from_u128(1));
    let mut s1 = SignedBig::from_natural(Natural::from_u128(0));
    let mut t0 = SignedBig::from_natural(Natural::from_u128(0));
    let mut t1 = SignedBig::from_natural(Natural::from_u128(1));
    proof {
        assert(s0@ * m@ + t0@ * a@ == r0@) by (nonlinear_arith)
            requires
                s0@ == 1,
                t0@ == 0,
                r0@ == m@,
        ;
        assert(s1@ * m@ + t1@ * a@ == r1@) by (nonlinear_arith)
            requires
                s1@ == 0,
                t1@ == 1,
                r1@ == a@,
        ;
    }
    while !r1.is_zero()
        invariant
            r0.wf(),
            r1.wf(),
            s0.wf(),
            s1.wf(),
            t0.wf(),
            t1.wf(),
            m.wf(),
            m@ >= 2,
            r0@ >= 1,
            s0@ * m@ + t0@ * a@ == r0@,
            s1@ * m@ + t1@ * a@ == r1@,
            gcd(r1@, r0@) == gcd(a@, m@),
        decreases r1@,
    {
        let (q, r2) = r0.div_rem(&r1);
        let s2 = s0.sub(&s1.mul_natural(&q));
        let t2 = t0.sub(&t1.mul_natural(&q));
        proof {
            lemma_fundamental_div_mod(r0@ as int, r1@ as int);
            lemma_mod_bound(r0@ as int, r1@ as int);
            // The new row keeps the Bezout combination.
            assert(s2@ * m@ + t2@ * a@ == r2@) by (nonlinear_arith)
                requires
                    s2@ == s0@ - s1@ * q@,
                    t2@ == t0@ - t1@ * q@,
                    s0@ * m@ + t0@ * a@ == r0@,
                    s1@ * m@ + t1@ * a@ == r1@,
                    r0@ == r1@ * q@ + r2@,
            ;
            // The gcd chain steps by the Euclidean recursion.
            assert(gcd(r2@, r1@) == gcd(r1@, r0@));
        }
        r0 = r1;
        r1 = r2;
        s0 = s1;
        s1 = s2;
        t0 = t1;
        t1 = t2;
    }
    let one = Natural::from_u128(1);
    if r0.equals(&one) {
        let w = t0.mod_floor(m);
        proof {
            assert(gcd(0, r0@) == r0@);
            // t0 * a == 1 - s0 * m, so reducing t0 gives the inverse.
            let mi = m@ as int;
            assert((t0@ % mi) * a@ == (t0@ % mi) * (a@ as int)) by (nonlinear_arith);
            lemma_mul_mod_noop_left(t0@, a@ as int, mi);
            assert(t0@ * a@ == mi * (-s0@) + 1) by (nonlinear_arith)
                requires
                    s0@ * m@ + t0@ * a@ == 1,
                    mi == m@ as int,
            ;
            vstd::arithmetic::div_mod::lemma_mod_multiples_vanish(-s0@, 1, mi);
            lemma_small_mod(1, m@);
            assert((t0@ * a@) % mi == 1);
            assert((w@ * a@) % m@ == 1);
            lemma_mod_bound(t0@, mi);
            lemma_inv_mod_correct(a@, m@);
            lemma_inverse_unique(a@, m@, w@, inv_mod(a@, m@));
        }
        Some(w)
    } else {
        proof {
            assert(gcd(0, r0@) == r0@);
        }
        None
    }
}

/// `base^e mod m` for a signed exponent, by `modpow` and, for negative
/// exponents, the extended Euclidean inverse; `None` exactly when that
/// inverse does not exist.
pub fn modpow_signed(base: &Natural, e: &SignedBig, m: &Natural) -> (r: Option<Natural>)
    requires
        base.wf(),
        e.wf(),
        m.wf(),
        m@ >= 2,
    ensures
        r is Some <==> signed_pow_ok(base@, e@, m@),
        r is Some ==> {
            &&& r.unwrap().wf()
            &&& r.unwrap()@ < m@
            &&& r.unwrap()@ == signed_pow_mod(base@, e@, m@)
        },
{
    let v = base.modpow(e.abs(), m);
    proof {
        lemma_pow_nonneg(base@ as int, if e@ >= 0 { e@ as nat } else { (-e@) as nat });
        lemma_mod_bound(pow(base@ as int, if e@ >= 0 { e@ as nat } else { (-e@) as nat }),
            m@ as int);
    }
    if e.is_neg() {
        modinv(&v, m)
    } else {
        Some(v)
    }
}

/// `(a * b) mod m`.
pub fn mul_mod(a: &Natural, b: &Natural, m: &Natural) -> (r: Natural)
    requires
        a.wf(),
        b.wf(),
        m.wf(),
        m@ > 0,
    ensures
        r.wf(),
        r@ == (a@ * b@) % m@,
{
    let p = a.mul(b);
    let (_q, rem) = p.div_rem(m);
    rem
}

} // verus!
