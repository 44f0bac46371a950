//! The laws of the protocol, proved once and for all: soundness of the
//! honest path, what an acceptance with a wrong secret forces, the
//! correctness of the modular inverse, the round trip of signed
//! exponents, idempotent registration, and the NotFound rule.
//!
//! The first four hold for any prime modulus `p` and generators strictly
//! between 0 and `p`; primality is a hypothesis here because the running
//! code never checks it (the default `p = 2^255 - 19` is prime).

use vstd::prelude::*;
use vstd::arithmetic::power::{
    pow, lemma_pow_adds, lemma_pow_multiplies, lemma_pow_mod_noop, lemma_pow_positive,
    lemma_pow0,
};
use vstd::arithmetic::div_mod::{
    lemma_small_mod, lemma_mod_bound, lemma_mul_mod_noop_left, lemma_mul_mod_noop_right,
    lemma_mul_mod_noop_general, lemma_fundamental_div_mod, lemma_sub_mod_noop,
};
use crate::number_theory::{
    gcd, is_prime, inv_mod, lemma_inv_mod_correct, lemma_prime_coprime,
    lemma_prime_pow_coprime, lemma_gcd_pos, lemma_gcd_divides,
};
use crate::modular::{pow_mod, signed_pow_ok, signed_pow_mod, lemma_pow_nonneg};
use crate::zkp_verifier::{
    accepts, spec_register, spec_challenge, spec_verify, VerifierModel, ZkpError,
};
use crate::codec::{is_dec, dec_val, is_signed_dec, signed_dec_val};

verus! {

/// A power of a unit of the prime field is a unit: for `0 < g < p`,
/// `g^e mod p` lies in `[1, p)` and is coprime to `p`.
proof fn lemma_pow_coprime_range(g: nat, e: nat, p: nat)
    requires
        is_prime(p),
        0 < g < p,
    ensures
        1 <= pow_mod(g, e, p) < p,
        gcd(pow_mod(g, e, p), p) == 1,
{
    lemma_small_mod(g, p);
    lemma_prime_pow_coprime(g, e, p);
    lemma_pow_nonneg(g as int, e);
    lemma_mod_bound(pow(g as int, e), p as int);
    lemma_prime_coprime(pow_mod(g, e, p), p);
}

/// Exponentiating a reduced power composes: `(g^x mod p)^c mod p ==
/// g^(x*c) mod p`.
proof fn lemma_pow_mod_compose(g: nat, x: nat, c: nat, p: nat)
    requires
        p >= 2,
    ensures
        pow_mod(pow_mod(g, x, p), c, p) == (pow(g as int, (x * c) as nat) % (p as int)) as nat,
{
    lemma_pow_nonneg(g as int, x);
    lemma_mod_bound(pow(g as int, x), p as int);
    lemma_pow_mod_noop(pow(g as int, x), c, p as int);
    lemma_pow_multiplies(g as int, x, c);
}

/// The core of soundness, one generator at a time: with the honest
/// response `s = k - c*x`, the verifier's product `g^s * (g^x)^c mod p`
/// recomputes the commitment `g^k mod p`.
proof fn lemma_honest_component(p: nat, g: nat, x: nat, k: nat, c: nat)
    requires
        is_prime(p),
        0 < g < p,
    ensures
        signed_pow_ok(g, k - c * x, p),
        (signed_pow_mod(g, k - c * x, p) * signed_pow_mod(pow_mod(g, x, p), c as int, p)) % p
            == pow_mod(g, k, p),
{
    let s = k - c * x;
    let y = pow_mod(g, x, p);
    let cx = (c * x) as nat;
    lemma_pow_mod_compose(g, x, c, p);
    assert(x * c == c * x) by (nonlinear_arith);
    let pcx = pow(g as int, cx);
    let pk = pow(g as int, k);
    lemma_pow_positive(g as int, cx);
    lemma_pow_positive(g as int, k);
    // C = (g^x mod p)^c mod p = g^(c*x) mod p.
    let cc = signed_pow_mod(y, c as int, p);
    assert(cc == (pcx % (p as int)) as nat);
    if s >= 0 {
        // g^s * g^(c*x) == g^k, then reduce both factors.
        lemma_pow_adds(g as int, s as nat, cx);
        lemma_pow_positive(g as int, s as nat);
        let ps = pow(g as int, s as nat);
        lemma_mul_mod_noop_general(ps, pcx, p as int);
        assert(s as nat + cx == k);
        assert((signed_pow_mod(g, s, p) * cc) % p == pow_mod(g, k, p));
    } else {
        let e = (c * x - k) as nat;
        let t = pow_mod(g, e, p);
        lemma_pow_coprime_range(g, e, p);
        lemma_inv_mod_correct(t, p);
        let a = inv_mod(t, p);
        let pe = pow(g as int, e);
        lemma_pow_positive(g as int, e);
        // g^(c*x) == g^k * g^e.
        lemma_pow_adds(g as int, k, e);
        assert(k + e == cx);
        assert(pcx == pk * pe);
        // (a * C) % p == (a * (pk * pe)) % p.
        lemma_mul_mod_noop_right(a as int, pk * pe, p as int);
        // a * (pk * pe) == (a * pe) * pk.
        assert(a * (pk * pe) == (a * pe) * pk) by (nonlinear_arith);
        // ((a * pe) * pk) % p == (((a * pe) % p) * pk) % p.
        lemma_mul_mod_noop_left((a as int) * pe, pk, p as int);
        // (a * pe) % p == (a * t) % p == 1.
        lemma_mul_mod_noop_right(a as int, pe, p as int);
        assert((a as int * (pe % (p as int))) == (a * t)) by {
            assert(pe % (p as int) == t);
        }
        assert((a as int * pe) % (p as int) == 1) by {
            assert((a * t) % p == 1);
        }
        assert((1 * pk) % (p as int) == pk % (p as int)) by {
            assert(1 * pk == pk) by (nonlinear_arith);
        }
        assert((signed_pow_mod(g, s, p) * cc) % p == pow_mod(g, k, p));
    }
}

/// Soundness of the happy path. For a prime `p`, generators `g, h` in
/// `(0, p)`, any secret `x`, nonce `k` and challenge `c`, the verifier's
/// equation accepts the honest response `s = k - c*x` against
/// `y1 = g^x`, `y2 = h^x`, `r1 = g^k`, `r2 = h^k` (all mod `p`).
pub proof fn lemma_honest_prover_accepted(p: nat, g: nat, h: nat, x: nat, k: nat, c: nat)
    requires
        is_prime(p),
        0 < g < p,
        0 < h < p,
    ensures
        accepts(
            p,
            g,
            h,
            pow_mod(g, x, p),
            pow_mod(h, x, p),
            pow_mod(g, k, p),
            pow_mod(h, k, p),
            c as int,
            k - c * x,
        ),
{
    lemma_honest_component(p, g, x, k, c);
    lemma_honest_component(p, h, x, k, c);
}

/// A wrong secret can only be accepted on a collision: one generator at
/// a time, if the verifier's product with response `s = k - c*x2`
/// recomputes `g^k mod p`, then `g^(c*x) == g^(c*x2) (mod p)`.
proof fn lemma_collision_component(p: nat, g: nat, x: nat, x2: nat, k: nat, c: nat)
    requires
        is_prime(p),
        0 < g < p,
        (signed_pow_mod(g, k - c * x2, p) * signed_pow_mod(pow_mod(g, x, p), c as int, p)) % p
            == pow_mod(g, k, p),
    ensures
        pow(g as int, (c * x) as nat) % (p as int) == pow(g as int, (c * x2) as nat) % (
        p as int),
{
    let s = k - c * x2;
    let a = signed_pow_mod(g, s, p);
    lemma_honest_component(p, g, x2, k, c);
    let cc = signed_pow_mod(pow_mod(g, x, p), c as int, p);
    let cc2 = signed_pow_mod(pow_mod(g, x2, p), c as int, p);
    assert((a * cc) % p == (a * cc2) % p);
    // a is coprime to p.
    if s >= 0 {
        lemma_pow_coprime_range(g, s as nat, p);
    } else {
        let e = (c * x2 - k) as nat;
        let t = pow_mod(g, e, p);
        lemma_pow_coprime_range(g, e, p);
        lemma_inv_mod_correct(t, p);
        assert(a == inv_mod(t, p));
        assert((a * t) % p == 1) by {
            assert((inv_mod(t, p) * t) % p == 1);
        }
        lemma_coprime_of_inverse(a, t, p);
    }
    lemma_mod_mul_cancel(a, cc, cc2, p);
    lemma_pow_mod_compose(g, x, c, p);
    lemma_pow_mod_compose(g, x2, c, p);
    assert(x * c == c * x) by (nonlinear_arith);
    assert(x2 * c == c * x2) by (nonlinear_arith);
    lemma_pow_nonneg(g as int, (c * x) as nat);
    lemma_pow_nonneg(g as int, (c * x2) as nat);
    lemma_mod_bound(pow(g as int, (c * x) as nat), p as int);
    lemma_mod_bound(pow(g as int, (c * x2) as nat), p as int);
    lemma_small_mod(cc, p);
    lemma_small_mod(cc2, p);
}

/// Rejection of a wrong secret, in its deterministic form: if the
/// verification equation accepts a response computed with `x2` against
/// honest values derived from `x`, then the two secrets collide in the
/// group: `g^(c*x) == g^(c*x2)` and `h^(c*x) == h^(c*x2)` modulo `p`.
/// (For a generator of large order and random `c` such a collision has
/// negligible probability; that probabilistic step stays outside the
/// proof.)
pub proof fn lemma_wrong_secret_collides(
    p: nat,
    g: nat,
    h: nat,
    x: nat,
    x2: nat,
    k: nat,
    c: nat,
)
    requires
        is_prime(p),
        0 < g < p,
        0 < h < p,
        accepts(
            p,
            g,
            h,
            pow_mod(g, x, p),
            pow_mod(h, x, p),
            pow_mod(g, k, p),
            pow_mod(h, k, p),
            c as int,
            k - c * x2,
        ),
    ensures
        pow(g as int, (c * x) as nat) % (p as int) == pow(g as int, (c * x2) as nat) % (
        p as int),
        pow(h as int, (c * x) as nat) % (p as int) == pow(h as int, (c * x2) as nat) % (
        p as int),
{
    lemma_collision_component(p, g, x, x2, k, c);
    lemma_collision_component(p, h, x, x2, k, c);
}

/// Whoever has a multiplicative inverse modulo `p` is coprime to `p`.
proof fn lemma_coprime_of_inverse(a: nat, t: nat, p: nat)
    requires
        p >= 2,
        (a * t) % p == 1,
    ensures
        gcd(a, p) == 1,
{
    if a == 0 {
        assert(a * t == 0) by (nonlinear_arith)
            requires
                a == 0,
        ;
        lemma_small_mod(0, p);
        assert(false);
    }
    let gg = gcd(a, p);
    lemma_gcd_pos(a, p);
    lemma_gcd_divides(a, p);
    if gg >= 2 {
        let q = ((a * t) as int) / (p as int);
        lemma_fundamental_div_mod((a * t) as int, p as int);
        assert(a * t == q * p + 1);
        // gg divides a*t and q*p, so it divides 1.
        lemma_mul_mod_noop_left(a as int, t as int, gg as int);
        assert(((a % gg) as int * t) == 0) by (nonlinear_arith)
            requires
                a % gg == 0,
        ;
        lemma_small_mod(0, gg);
        assert(((a * t) as int) % (gg as int) == 0);
        lemma_mul_mod_noop_right(q, p as int, gg as int);
        assert((q * ((p % gg) as int)) == 0) by (nonlinear_arith)
            requires
                p % gg == 0,
        ;
        assert((q * (p as int)) % (gg as int) == 0);
        lemma_sub_mod_noop((a * t) as int, q * (p as int), gg as int);
        assert((((a * t) - q * p) as int) % (gg as int) == 0);
        lemma_small_mod(1, gg);
        assert(false);
    }
}

/// Multiplication by a unit cancels modulo `p`.
proof fn lemma_mod_mul_cancel(a: nat, u: nat, v: nat, p: nat)
    requires
        p >= 2,
        gcd(a, p) == 1,
        (a * u) % p == (a * v) % p,
    ensures
        u % p == v % p,
{
    lemma_inv_mod_correct(a, p);
    let b = inv_mod(a, p);
    assert(b * (a * u) == (b * a) * u) by (nonlinear_arith);
    assert(b * (a * v) == (b * a) * v) by (nonlinear_arith);
    lemma_mul_mod_noop_right(b as int, (a * u) as int, p as int);
    lemma_mul_mod_noop_right(b as int, (a * v) as int, p as int);
    lemma_mul_mod_noop_left((b * a) as int, u as int, p as int);
    lemma_mul_mod_noop_left((b * a) as int, v as int, p as int);
    assert(((b * a) % p) as int * u == u as int) by (nonlinear_arith)
        requires
            (b * a) % p == 1,
    ;
    assert(((b * a) % p) as int * v == v as int) by (nonlinear_arith)
        requires
            (b * a) % p == 1,
    ;
}

/// Correctness of the modular inverse for a prime modulus: every
/// `a` in `[1, p)` is coprime to `p`, its inverse lies in `[0, p)`, and
/// `inv_mod(a, p) * a == 1 (mod p)`. The running `modinv` returns
/// exactly `inv_mod(a, p)` whenever the gcd is 1.
pub proof fn lemma_modinv_correct_for_prime(a: nat, p: nat)
    requires
        is_prime(p),
        1 <= a < p,
    ensures
        gcd(a, p) == 1,
        inv_mod(a, p) < p,
        (inv_mod(a, p) * a) % p == 1,
{
    lemma_prime_coprime(a, p);
    lemma_inv_mod_correct(a, p);
}

/// Round trip of signed exponents: for a prime `p` and `0 < g < p`,
/// both `g^s` and `g^(-s)` are defined modulo `p` for every signed `s`,
/// and their product is 1 modulo `p`.
pub proof fn lemma_signed_pow_round_trip(g: nat, s: int, p: nat)
    requires
        is_prime(p),
        0 < g < p,
    ensures
        signed_pow_ok(g, s, p),
        signed_pow_ok(g, -s, p),
        (signed_pow_mod(g, s, p) * signed_pow_mod(g, -s, p)) % p == 1,
{
    if s == 0 {
        lemma_pow0(g as int);
        lemma_small_mod(1, p);
        assert(pow_mod(g, 0, p) == 1);
        assert((1 * 1) % p == 1) by {
            lemma_small_mod(1, p);
        }
    } else {
        let e = if s > 0 {
            s as nat
        } else {
            (-s) as nat
        };
        let t = pow_mod(g, e, p);
        lemma_pow_coprime_range(g, e, p);
        lemma_inv_mod_correct(t, p);
        let w = inv_mod(t, p);
        assert((t * w) % p == 1) by {
            assert(t * w == w * t) by (nonlinear_arith);
        }
        if s > 0 {
            assert(signed_pow_mod(g, s, p) == t);
            assert(signed_pow_mod(g, -s, p) == w);
        } else {
            assert(signed_pow_mod(g, s, p) == w);
            assert(signed_pow_mod(g, -s, p) == t);
            assert((w * t) % p == 1);
        }
    }
}

/// Idempotent registration: once a registration for `user` has
/// succeeded, registering the same user again succeeds and changes
/// nothing, whatever values come with the second call.
pub proof fn lemma_register_idempotent(
    m: VerifierModel,
    user: Seq<u8>,
    y1a: Seq<u8>,
    y2a: Seq<u8>,
    y1b: Seq<u8>,
    y2b: Seq<u8>,
)
    requires
        spec_register(m, user, y1a, y2a).1 == Ok::<(), ZkpError>(()),
    ensures
        spec_register(spec_register(m, user, y1a, y2a).0, user, y1b, y2b) == (
            spec_register(m, user, y1a, y2a).0,
            Ok::<(), ZkpError>(()),
        ),
{
    let m1 = spec_register(m, user, y1a, y2a).0;
    assert(m1.users.contains_key(user));
}

/// The happy path through the whole verifier state machine: starting
/// from any state that does not know `user`, an honest registration
/// (`y1 = g^x`, `y2 = h^x`), a challenge for an honest commitment
/// (`r1 = g^k`, `r2 = h^k`), and the honest response `s = k - c*x` are
/// all accepted, for every secret `x`, nonce `k` and issued `(aid, c)`.
/// The wire strings may be any strict decimal encodings of those values.
pub proof fn lemma_protocol_happy_path(
    m0: VerifierModel,
    user: Seq<u8>,
    y1t: Seq<u8>,
    y2t: Seq<u8>,
    r1t: Seq<u8>,
    r2t: Seq<u8>,
    aidt: Seq<u8>,
    st: Seq<u8>,
    x: nat,
    k: nat,
    aid: u128,
    c: u128,
)
    requires
        is_prime(m0.p),
        0 < m0.g < m0.p,
        0 < m0.h < m0.p,
        !m0.users.contains_key(user),
        is_dec(y1t) && dec_val(y1t) == pow_mod(m0.g, x, m0.p),
        is_dec(y2t) && dec_val(y2t) == pow_mod(m0.h, x, m0.p),
        is_dec(r1t) && dec_val(r1t) == pow_mod(m0.g, k, m0.p),
        is_dec(r2t) && dec_val(r2t) == pow_mod(m0.h, k, m0.p),
        is_dec(aidt) && dec_val(aidt) == aid,
        is_signed_dec(st) && signed_dec_val(st) == k - c * x,
    ensures
        ({
            let (m1, reg) = spec_register(m0, user, y1t, y2t);
            let (m2, ch) = spec_challenge(m1, user, r1t, r2t, aid, c);
            &&& reg == Ok::<(), ZkpError>(())
            &&& ch == Ok::<(u128, u128), ZkpError>((aid, c))
            &&& spec_verify(m2, aidt, st) == Ok::<(), ZkpError>(())
        }),
{
    let (m1, _) = spec_register(m0, user, y1t, y2t);
    let (m2, _) = spec_challenge(m1, user, r1t, r2t, aid, c);
    assert(m1.users.contains_key(user));
    assert(m2.auths[aid] == user);
    // A `u128` auth_id always fits below 2^128.
    assert(aid < vstd::arithmetic::power2::pow2(128)) by {
        vstd::arithmetic::power2::lemma2_to64_rest();
        vstd::arithmetic::power2::lemma_pow2_adds(64, 64);
    }
    lemma_honest_prover_accepted(m0.p, m0.g, m0.h, x, k, c as nat);
}

/// The NotFound rule: a challenge for a user who was never registered
/// fails with NotFound and changes nothing, whatever the auth_id table
/// holds (from this process or an earlier one).
pub proof fn lemma_challenge_unknown_user(
    m: VerifierModel,
    user: Seq<u8>,
    r1t: Seq<u8>,
    r2t: Seq<u8>,
    aid: u128,
    c: u128,
)
    requires
        !m.users.contains_key(user),
        is_dec(r1t),
        is_dec(r2t),
    ensures
        spec_challenge(m, user, r1t, r2t, aid, c) == (
            m,
            Err::<(u128, u128), ZkpError>(ZkpError::NotFound),
        ),
{
}

} // verus!
