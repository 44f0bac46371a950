//! Arbitrary-size natural numbers.
//!
//! A `Natural` holds base-2^32 digits, least significant first, with no
//! trailing zero digit. Its mathematical value is its view. The arithmetic
//! itself is done by the `num` crates behind small trusted wrappers whose
//! contracts state the exact mathematical result.

use vstd::prelude::*;
use vstd::arithmetic::power2::{pow2, lemma_pow2_adds, lemma_pow2_pos};

verus! {

/// The value of a little-endian sequence of base-2^32 digits.
spec fn limbs_val(s: Seq<u32>) -> nat
    decreases s.len(),
{
    if s.len() == 0 {
        0
    } else {
        (s[0] as nat) + pow2(32) * limbs_val(s.drop_first())
    }
}

/// An arbitrary-size natural number.
#[derive(Debug, Clone, PartialEq, Eq)]
pub struct Natural {
    limbs: Vec<u32>,
}

impl View for Natural {
    type V = nat;

    closed spec fn view(&self) -> nat {
        limbs_val(self.limbs@)
    }
}

/// Appending a digit adds its value scaled by the weight of its position.
proof fn lemma_limbs_val_snoc(s: Seq<u32>, d: u32)
    ensures
        limbs_val(s.push(d)) == limbs_val(s) + (d as nat) * pow2(32 * s.len()),
    decreases s.len(),
{
    if s.len() == 0 {
        assert(limbs_val(Seq::<u32>::empty()) == 0);
        assert(s =~= Seq::<u32>::empty());
        assert(s.push(d).drop_first() =~= Seq::<u32>::empty());
        assert(limbs_val(s.push(d)) == (d as nat) + pow2(32) * limbs_val(Seq::<u32>::empty()));
        assert(pow2(0) == 1) by {
            vstd::arithmetic::power2::lemma2_to64();
        }
    } else {
        assert(s.push(d).drop_first() =~= s.drop_first().push(d));
        lemma_limbs_val_snoc(s.drop_first(), d);
        let t = limbs_val(s.drop_first());
        let w = pow2((32 * (s.len() - 1)) as nat);
        assert(limbs_val(s.push(d)) == s[0] + pow2(32) * (t + (d as nat) * w));
        assert(pow2(32) * (t + (d as nat) * w) == pow2(32) * t + pow2(32) * ((d as nat) * w))
            by (nonlinear_arith);
        assert(pow2(32) * ((d as nat) * w) == (d as nat) * (pow2(32) * w)) by (nonlinear_arith);
        lemma_pow2_adds(32, (32 * (s.len() - 1)) as nat);
        assert(32 + 32 * (s.len() - 1) == 32 * s.len());
    }
}

/// The value of `n` digits is below `2^(32n)`.
proof fn lemma_limbs_val_upper(s: Seq<u32>)
    ensures
        limbs_val(s) < pow2(32 * s.len()),
    decreases s.len(),
{
    if s.len() == 0 {
        assert(pow2(0) == 1) by {
            vstd::arithmetic::power2::lemma2_to64();
        }
    } else {
        lemma_limbs_val_upper(s.drop_first());
        let t = limbs_val(s.drop_first());
        let w = pow2((32 * (s.len() - 1)) as nat);
        assert(pow2(32) == 0x1_0000_0000) by {
            vstd::arithmetic::power2::lemma2_to64();
        }
        assert(t <= w - 1);
        assert(pow2(32) * t <= pow2(32) * (w - 1)) by (nonlinear_arith)
            requires
                t <= w - 1,
                0 <= t,
        ;
        assert(limbs_val(s) <= (s[0] as nat) + pow2(32) * (w - 1));
        assert(pow2(32) * (w - 1) == pow2(32) * w - pow2(32)) by (nonlinear_arith);
        lemma_pow2_adds(32, (32 * (s.len() - 1)) as nat);
        assert(32 + 32 * (s.len() - 1) == 32 * s.len());
        assert(limbs_val(s) < pow2(32) * w);
    }
}

/// With no trailing zero digit, `n` digits are worth at least `2^(32(n-1))`.
proof fn lemma_limbs_val_lower(s: Seq<u32>)
    requires
        s.len() > 0,
        s.last() != 0,
    ensures
        limbs_val(s) >= pow2((32 * (s.len() - 1)) as nat),
    decreases s.len(),
{
    if s.len() == 1 {
        assert(pow2(0) == 1) by {
            vstd::arithmetic::power2::lemma2_to64();
        }
        assert(limbs_val(s) == s[0] + pow2(32) * limbs_val(s.drop_first()));
    } else {
        let t = s.drop_first();
        assert(t.last() == s.last());
        lemma_limbs_val_lower(t);
        let w = pow2((32 * (t.len() - 1)) as nat);
        assert(pow2(32) * limbs_val(t) >= pow2(32) * w) by (nonlinear_arith)
            requires
                limbs_val(t) >= w,
        ;
        lemma_pow2_adds(32, (32 * (t.len() - 1)) as nat);
        assert(32 + 32 * (t.len() - 1) == 32 * (s.len() - 1));
    }
}

impl Natural {
    /// The digits carry no trailing zero, so each value has one form.
    pub closed spec fn wf(&self) -> bool {
        self.limbs@.len() > 0 ==> self.limbs@.last() != 0
    }

    /// A canonical nonempty digit string is worth at least 1.
    proof fn lemma_nonzero(&self)
        requires
            self.wf(),
        ensures
            self@ == 0 <==> self.limbs@.len() == 0,
    {
        if self.limbs@.len() > 0 {
            lemma_limbs_val_lower(self.limbs@);
            lemma_pow2_pos((32 * (self.limbs@.len() - 1)) as nat);
        }
    }

    /// Build a `Natural` from a machine integer.
    pub fn from_u128(x: u128) -> (r: Natural)
        ensures
            r@ == x,
            r.wf(),
    {
        let mut limbs: Vec<u32> = Vec::new();
        let mut v: u128 = x;
        proof {
            assert(pow2(0) == 1) by {
                vstd::arithmetic::power2::lemma2_to64();
            }
            assert(limbs_val(limbs@) == 0);
            assert((v as nat) * pow2(32 * limbs@.len()) == v) by (nonlinear_arith)
                requires
                    pow2(32 * limbs@.len()) == 1,
            ;
        }
        while v > 0
            invariant
                limbs_val(limbs@) + (v as nat) * pow2(32 * limbs@.len()) == x,
                v == 0 ==> (limbs@.len() == 0 || limbs@.last() != 0),
            decreases v,
        {
            let d: u32 = (v % 0x1_0000_0000) as u32;
            let v2: u128 = v / 0x1_0000_0000;
            proof {
                assert(pow2(32) == 0x1_0000_0000) by {
                    vstd::arithmetic::power2::lemma2_to64();
                }
                lemma_limbs_val_snoc(limbs@, d);
                vstd::arithmetic::div_mod::lemma_fundamental_div_mod(v as int, 0x1_0000_0000);
                let w = pow2(32 * limbs@.len());
                assert((d + v2 * pow2(32)) * w == (d as nat) * w + (v2 as nat) * (pow2(32) * w))
                    by (nonlinear_arith);
                lemma_pow2_adds(32, 32 * limbs@.len());
                assert(32 * limbs@.len() + 32 == 32 * (limbs@.len() + 1));
            }
            limbs.push(d);
            v = v2;
        }
        proof {
            assert(limbs_val(limbs@) == x) by (nonlinear_arith)
                requires
                    limbs_val(limbs@) + 0 * pow2(32 * limbs@.len()) == x,
            ;
        }
        Natural { limbs }
    }

    /// Recover a machine integer, if the value fits.
    pub fn to_u128(&self) -> (r: Option<u128>)
        requires
            self.wf(),
        ensures
            match r {
                Some(v) => v == self@,
                None => self@ >= pow2(128),
            },
    {
        if self.limbs.len() > 4 {
            proof {
                lemma_limbs_val_lower(self.limbs@);
                let e = (32 * (self.limbs@.len() - 1)) as nat;
                if e > 128 {
                    vstd::arithmetic::power2::lemma_pow2_strictly_increases(128, e);
                }
            }
            return None;
        }
        let mut acc: u128 = 0;
        let mut i: usize = self.limbs.len();
        proof {
            vstd::arithmetic::power2::lemma2_to64();
            vstd::arithmetic::power2::lemma2_to64_rest();
            lemma_limbs_val_upper(self.limbs@);
            vstd::arithmetic::power2::lemma_pow2_adds(32, 32);
            vstd::arithmetic::power2::lemma_pow2_adds(64, 32);
            vstd::arithmetic::power2::lemma_pow2_adds(96, 32);
        }
        assert(limbs_val(self.limbs@.skip(i as int)) == 0);
        while i > 0
            invariant
                i <= self.limbs@.len() <= 4,
                acc == limbs_val(self.limbs@.skip(i as int)),
                acc < pow2((32 * (self.limbs@.len() - i)) as nat),
                pow2(32) == 0x1_0000_0000,
                pow2(64) == 0x1_0000_0000 * 0x1_0000_0000,
                pow2(96) == pow2(64) * 0x1_0000_0000,
                pow2(128) == pow2(96) * 0x1_0000_0000,
            decreases i,
        {
            i = i - 1;
            let d: u32 = self.limbs[i];
            proof {
                let rest = self.limbs@.skip(i + 1);
                assert(self.limbs@.skip(i as int).drop_first() =~= rest);
                assert(limbs_val(self.limbs@.skip(i as int)) == d + pow2(32) * limbs_val(rest));
                let n = (self.limbs@.len() - i - 1) as nat;
                assert(pow2(32) * limbs_val(rest) <= pow2(32) * (pow2(32 * n) - 1))
                    by (nonlinear_arith)
                    requires
                        limbs_val(rest) <= pow2(32 * n) - 1,
                ;
                assert(pow2(32) * (pow2(32 * n) - 1) == pow2(32) * pow2(32 * n) - pow2(32))
                    by (nonlinear_arith);
                lemma_pow2_adds(32, 32 * n);
                assert(32 + 32 * n == 32 * (self.limbs@.len() - i));
                if self.limbs@.len() - i == 1 {
                } else if self.limbs@.len() - i == 2 {
                    lemma_pow2_adds(32, 32);
                } else if self.limbs@.len() - i == 3 {
                    lemma_pow2_adds(32, 64);
                } else {
                    lemma_pow2_adds(32, 96);
                }
                assert(pow2((32 * (self.limbs@.len() - i)) as nat) <= pow2(128));
            }
            acc = acc * 0x1_0000_0000 + (d as u128);
        }
        assert(self.limbs@.skip(0) =~= self.limbs@);
        Some(acc)
    }

    /// The value is zero exactly when there are no digits.
    pub fn is_zero(&self) -> (r: bool)
        requires
            self.wf(),
        ensures
            r == (self@ == 0),
    {
        proof {
            self.lemma_nonzero();
        }
        self.limbs.len() == 0
    }

    /// An owned copy of the same value.
    pub fn clone_value(&self) -> (r: Natural)
        ensures
            r@ == self@,
            self.wf() ==> r.wf(),
    {
        let limbs = self.limbs.clone();
        proof {
            assert forall|i: int| 0 <= i < self.limbs@.len() implies limbs@[i]
                == self.limbs@[i] by {
                assert(cloned::<u32>(self.limbs@[i], limbs@[i]));
            }
            assert(limbs@ =~= self.limbs@);
        }
        Natural { limbs }
    }

    /// Relies on `num_bigint::BigUint` addition; `BigUint::new` reads base-2^32
    /// digits least significant first, and `to_u32_digits` writes them back
    /// with no trailing zero.
    #[verifier::external_body]
    pub(crate) fn add(&self, other: &Natural) -> (r: Natural)
        ensures
            r@ == self@ + other@,
            r.wf(),
    {
        let a = num_bigint::BigUint::new(self.limbs.clone());
        let b = num_bigint::BigUint::new(other.limbs.clone());
        Natural { limbs: (a + b).to_u32_digits() }
    }

    /// Relies on `num_bigint::BigUint` subtraction, which panics on underflow;
    /// the precondition rules that out.
    #[verifier::external_body]
    pub(crate) fn sub(&self, other: &Natural) -> (r: Natural)
        requires
            other@ <= self@,
        ensures
            r@ == self@ - other@,
            r.wf(),
    {
        let a = num_bigint::BigUint::new(self.limbs.clone());
        let b = num_bigint::BigUint::new(other.limbs.clone());
        Natural { limbs: (a - b).to_u32_digits() }
    }

    /// Relies on `num_bigint::BigUint` multiplication.
    #[verifier::external_body]
    pub(crate) fn mul(&self, other: &Natural) -> (r: Natural)
        ensures
            r@ == self@ * other@,
            r.wf(),
    {
        let a = num_bigint::BigUint::new(self.limbs.clone());
        let b = num_bigint::BigUint::new(other.limbs.clone());
        Natural { limbs: (a * b).to_u32_digits() }
    }

    /// Relies on `num_integer::Integer::div_rem` for `BigUint`: Euclidean
    /// quotient and remainder; division by zero panics, so the divisor is
    /// required positive.
    #[verifier::external_body]
    pub(crate) fn div_rem(&self, other: &Natural) -> (r: (Natural, Natural))
        requires
            other@ > 0,
        ensures
            r.0@ == self@ / other@,
            r.1@ == self@ % other@,
            r.0.wf(),
            r.1.wf(),
    {
        let a = num_bigint::BigUint::new(self.limbs.clone());
        let b = num_bigint::BigUint::new(other.limbs.clone());
        let (q, m) = num_integer::Integer::div_rem(&a, &b);
        (Natural { limbs: q.to_u32_digits() }, Natural { limbs: m.to_u32_digits() })
    }

    /// Relies on `num_bigint::BigUint::modpow`: returns
    /// `(self ^ exponent) % modulus`, panicking only on a zero modulus.
    #[verifier::external_body]
    pub(crate) fn modpow(&self, exponent: &Natural, modulus: &Natural) -> (r: Natural)
        requires
            modulus@ > 0,
        ensures
            r@ == vstd::arithmetic::power::pow(self@ as int, exponent@) % (modulus@ as int),
            r.wf(),
    {
        let b = num_bigint::BigUint::new(self.limbs.clone());
        let e = num_bigint::BigUint::new(exponent.limbs.clone());
        let m = num_bigint::BigUint::new(modulus.limbs.clone());
        Natural { limbs: b.modpow(&e, &m).to_u32_digits() }
    }

    /// Relies on the `Ord` order of `num_bigint::BigUint`, which is the
    /// numerical order.
    #[verifier::external_body]
    pub(crate) fn lt(&self, other: &Natural) -> (r: bool)
        ensures
            r == (self@ < other@),
    {
        let a = num_bigint::BigUint::new(self.limbs.clone());
        let b = num_bigint::BigUint::new(other.limbs.clone());
        a < b
    }

    /// Relies on `num_bigint::BigUint` equality, which is numerical equality.
    #[verifier::external_body]
    pub(crate) fn equals(&self, other: &Natural) -> (r: bool)
        ensures
            r == (self@ == other@),
    {
        let a = num_bigint::BigUint::new(self.limbs.clone());
        let b = num_bigint::BigUint::new(other.limbs.clone());
        a == b
    }
}

} // verus!
