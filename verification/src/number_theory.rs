//! Greatest common divisors, primality, and the Bezout identity.
//!
//! These spec functions and lemmas support the contracts of the modular
//! arithmetic layer: the modular inverse returned by the extended Euclidean
//! algorithm, and the soundness of the verification equation.

use vstd::prelude::*;
use vstd::arithmetic::div_mod::{
    lemma_small_mod, lemma_mod_self_0, lemma_mod_bound, lemma_mul_mod_noop_left,
    lemma_mul_mod_noop_right, lemma_fundamental_div_mod, lemma_add_mod_noop,
};
use vstd::arithmetic::power::pow;

verus! {

/// Greatest common divisor, by the Euclidean recursion.
pub open spec fn gcd(a: nat, b: nat) -> nat
    decreases a,
{
    if a == 0 {
        b
    } else {
        gcd(b % a, a)
    }
}

/// `p` is a prime number: at least 2, with no divisor strictly between 1 and `p`.
pub open spec fn is_prime(p: nat) -> bool {
    p >= 2 && forall|d: nat| 1 < d < p ==> #[trigger] (p % d) != 0
}

/// Bezout coefficients `(u, v)` with `u * a + v * b == gcd(a, b)`,
/// by the same recursion as `gcd`.
pub open spec fn bezout_coeffs(a: nat, b: nat) -> (int, int)
    decreases a,
{
    if a == 0 {
        (0, 1)
    } else {
        let (u, v) = bezout_coeffs(b % a, a);
        (v - u * ((b / a) as int), u)
    }
}

/// The canonical modular inverse of `a` modulo `m`, in `[0, m)`:
/// the first Bezout coefficient, reduced.
pub open spec fn inv_mod(a: nat, m: nat) -> nat
    recommends
        m >= 2,
        gcd(a, m) == 1,
{
    (bezout_coeffs(a, m).0 % (m as int)) as nat
}

/// The gcd of two numbers, not both zero, is positive.
pub proof fn lemma_gcd_pos(a: nat, b: nat)
    requires
        a > 0 || b > 0,
    ensures
        gcd(a, b) > 0,
    decreases a,
{
    if a > 0 {
        lemma_mod_bound(b as int, a as int);
        lemma_gcd_pos(b % a, a);
    }
}

/// If `d` divides `x` and `y`, it divides `q * y + x`.
proof fn lemma_divides_combo(x: int, y: int, q: int, d: int)
    requires
        d > 0,
        x % d == 0,
        y % d == 0,
    ensures
        (q * y + x) % d == 0,
{
    lemma_mul_mod_noop_right(q, y, d);
    assert(q * (y % d) == 0) by (nonlinear_arith)
        requires
            y % d == 0,
    ;
    assert((q * y) % d == 0) by {
        lemma_small_mod(0, d as nat);
    }
    lemma_add_mod_noop(q * y, x, d);
    lemma_small_mod(0, d as nat);
}

/// The gcd divides both of its arguments.
pub proof fn lemma_gcd_divides(a: nat, b: nat)
    requires
        a > 0 || b > 0,
    ensures
        a % gcd(a, b) == 0,
        b % gcd(a, b) == 0,
    decreases a,
{
    let g = gcd(a, b);
    lemma_gcd_pos(a, b);
    if a == 0 {
        lemma_mod_self_0(b as int);
        lemma_small_mod(0, g);
    } else {
        lemma_mod_bound(b as int, a as int);
        lemma_gcd_pos(b % a, a);
        lemma_gcd_divides(b % a, a);
        // b == (b / a) * a + b % a, and g divides both summands.
        lemma_fundamental_div_mod(b as int, a as int);
        lemma_divides_combo((b % a) as int, a as int, (b / a) as int, g as int);
        assert(a * ((b / a) as int) == ((b / a) as int) * a) by (nonlinear_arith);
    }
}

/// A positive divisor of a positive number does not exceed it.
proof fn lemma_divisor_le(n: nat, d: nat)
    requires
        d > 0,
        n > 0,
        n % d == 0,
    ensures
        d <= n,
{
    let q = n as int / d as int;
    lemma_fundamental_div_mod(n as int, d as int);
    assert(n as int == q * (d as int));
    if q <= 0 {
        assert(q * (d as int) <= 0) by (nonlinear_arith)
            requires
                q <= 0,
                d > 0,
        ;
        assert(false);
    }
    assert(q * (d as int) >= d as int) by (nonlinear_arith)
        requires
            q >= 1,
            d > 0,
    ;
}

/// A residue `0 < a < p` of a prime `p` is coprime to it.
pub proof fn lemma_prime_coprime(a: nat, p: nat)
    requires
        is_prime(p),
        0 < a < p,
    ensures
        gcd(a, p) == 1,
{
    let g = gcd(a, p);
    lemma_gcd_pos(a, p);
    lemma_gcd_divides(a, p);
    if g != 1 {
        lemma_divisor_le(p, g);
        if g < p {
            assert(p % g != 0);  // primality
            assert(false);
        } else {
            // g == p divides a, yet 0 < a < p.
            lemma_divisor_le(a, g);
            assert(false);
        }
    }
}

/// The Bezout identity: `u * a + v * b == gcd(a, b)`.
pub proof fn lemma_bezout(a: nat, b: nat)
    ensures
        bezout_coeffs(a, b).0 * a + bezout_coeffs(a, b).1 * b == gcd(a, b),
    decreases a,
{
    if a == 0 {
        assert(0 * a + 1 * b == b) by (nonlinear_arith);
    } else {
        lemma_mod_bound(b as int, a as int);
        lemma_bezout(b % a, a);
        let (u, v) = bezout_coeffs(b % a, a);
        let q = (b / a) as int;
        let r = (b % a) as int;
        lemma_fundamental_div_mod(b as int, a as int);
        // u * r + v * a == gcd, and r == b - q * a, so
        // (v - u * q) * a + u * b == gcd.
        assert((v - u * q) * a + u * b == u * (b - q * a) + v * a) by (nonlinear_arith);
        assert(u * (b - q * a) == u * r) by (nonlinear_arith)
            requires
                r == b - q * (a as int),
        ;
    }
}

/// The modular inverse from the Bezout identity: when `gcd(a, m) == 1`,
/// `inv_mod(a, m)` is in `[0, m)` and `inv_mod(a, m) * a` is `1` modulo `m`.
pub proof fn lemma_inv_mod_correct(a: nat, m: nat)
    requires
        m >= 2,
        gcd(a, m) == 1,
    ensures
        inv_mod(a, m) < m,
        (inv_mod(a, m) * a) % m == 1,
{
    let (u, v) = bezout_coeffs(a, m);
    lemma_bezout(a, m);
    lemma_mod_bound(u, m as int);
    let w = inv_mod(a, m) as int;
    assert(w == u % (m as int));
    // u * a == m * (-v) + 1, so (u * a) % m == 1.
    assert(u * a == (m as int) * (-v) + 1) by (nonlinear_arith)
        requires
            u * a + v * m == 1,
    ;
    vstd::arithmetic::div_mod::lemma_mod_multiples_vanish(-v, 1, m as int);
    lemma_small_mod(1, m);
    assert((u * a) % (m as int) == 1);
    // Reducing u keeps the product's residue.
    lemma_mul_mod_noop_left(u, a as int, m as int);
    assert((w * a) % (m as int) == 1);
}

/// Two residues in `[0, m)` that both invert `a` are equal.
pub proof fn lemma_inverse_unique(a: nat, m: nat, x: nat, y: nat)
    requires
        m >= 2,
        x < m,
        y < m,
        (x * a) % m == 1,
        (y * a) % m == 1,
    ensures
        x == y,
{
    // x == x * (y * a) % m == y * (x * a) % m == y.
    lemma_mul_mod_noop_right(x as int, (y * a) as int, m as int);
    assert(x * ((y * a) % m) == x * 1) by (nonlinear_arith)
        requires
            (y * a) % m == 1,
    ;
    assert((x * ((y * a) % m) as int) % (m as int) == (x as int) % (m as int)) by {
        assert(x * 1 == x) by (nonlinear_arith);
    }
    assert((x * (y * a)) as int % (m as int) == (x as int) % (m as int));
    lemma_mul_mod_noop_right(y as int, (x * a) as int, m as int);
    assert(y * ((x * a) % m) == y * 1) by (nonlinear_arith)
        requires
            (x * a) % m == 1,
    ;
    assert((y * ((x * a) % m) as int) % (m as int) == (y as int) % (m as int)) by {
        assert(y * 1 == y) by (nonlinear_arith);
    }
    assert((y * (x * a)) as int % (m as int) == (y as int) % (m as int));
    assert(x * (y * a) == y * (x * a)) by (nonlinear_arith);
    lemma_small_mod(x, m);
    lemma_small_mod(y, m);
}

/// Euclid's lemma for primes: if `p` divides `a * b` but not `a`,
/// it divides `b`.
pub proof fn lemma_euclid(a: nat, b: nat, p: nat)
    requires
        is_prime(p),
        (a * b) % p == 0,
        a % p != 0,
    ensures
        b % p == 0,
{
    let ar = a % p;
    lemma_mod_bound(a as int, p as int);
    lemma_prime_coprime(ar, p);
    let (u, v) = bezout_coeffs(ar, p);
    lemma_bezout(ar, p);
    // u * ar + v * p == 1; multiply by b: u * (ar * b) + v * p * b == b.
    lemma_mul_mod_noop_left(a as int, b as int, p as int);
    assert((ar * b) % p == 0);
    // (u * (ar * b)) % p == 0.
    lemma_mul_mod_noop_right(u, (ar * b) as int, p as int);
    assert(u * (((ar * b) as int) % (p as int)) == 0) by (nonlinear_arith)
        requires
            ((ar * b) as int) % (p as int) == 0,
    ;
    lemma_small_mod(0, p);
    assert((u * (ar * b)) % (p as int) == 0);
    // b == u * (ar * b) + p * (v * b).
    assert(b == u * (ar * b) + (p as int) * (v * b)) by (nonlinear_arith)
        requires
            u * ar + v * p == 1,
    ;
    vstd::arithmetic::div_mod::lemma_mod_multiples_vanish(v * b, u * (ar * b), p as int);
    assert((b as int) % (p as int) == (u * (ar * b)) % (p as int));
}

/// A prime `p` divides no power of a base it does not divide.
pub proof fn lemma_prime_pow_coprime(g: nat, e: nat, p: nat)
    requires
        is_prime(p),
        g % p != 0,
    ensures
        (pow(g as int, e) as nat) % p != 0,
        pow(g as int, e) >= 0,
    decreases e,
{
    if g == 0 {
        lemma_small_mod(0, p);
        assert(false);
    }
    vstd::arithmetic::power::lemma_pow_positive(g as int, e);
    if e == 0 {
        vstd::arithmetic::power::lemma_pow0(g as int);
        lemma_small_mod(1, p);
        assert((pow(g as int, e) as nat) % p == 1);
    } else {
        lemma_prime_pow_coprime(g, (e - 1) as nat, p);
        let t = pow(g as int, (e - 1) as nat) as nat;
        assert(pow(g as int, e) == g * t) by {
            vstd::arithmetic::power::lemma_pow_adds(g as int, 1, (e - 1) as nat);
            vstd::arithmetic::power::lemma_pow1(g as int);
        }
        if (g * t) % p == 0 {
            lemma_euclid(g, t, p);
            assert(false);
        }
        assert((pow(g as int, e) as nat) == g * t);
    }
}

} // verus!
