//! Arbitrary-size signed integers: a sign and a `Natural` magnitude.
//!
//! The response `s = k - c * x` of the protocol may be negative and travels
//! unreduced, so the verifier works on signed values. All operations here are
//! verified; they lean only on the `Natural` primitives.

use vstd::prelude::*;
use crate::natural::Natural;

verus! {

/// An arbitrary-size signed integer. Zero is stored with a positive sign.
#[derive(Debug, Clone, PartialEq, Eq)]
pub struct SignedBig {
    negative: bool,
    magnitude: Natural,
}

impl View for SignedBig {
    type V = int;

    closed spec fn view(&self) -> int {
        if self.negative {
            -(self.magnitude@ as int)
        } else {
            self.magnitude@ as int
        }
    }
}

impl SignedBig {
    /// Zero never carries a negative sign, so each value has one form.
    pub closed spec fn wf(&self) -> bool {
        self.magnitude.wf() && (self.negative ==> self.magnitude@ > 0)
    }

    /// Wrap a natural number as a non-negative signed value.
    pub fn from_natural(n: Natural) -> (r: SignedBig)
        requires
            n.wf(),
        ensures
            r@ == n@,
            r.wf(),
    {
        SignedBig { negative: false, magnitude: n }
    }

    /// The sign of the value.
    pub fn is_neg(&self) -> (r: bool)
        requires
            self.wf(),
        ensures
            r == (self@ < 0),
    {
        self.negative
    }

    /// The absolute value.
    pub fn abs(&self) -> (r: &Natural)
        requires
            self.wf(),
        ensures
            r@ == (if self@ >= 0 {
                self@
            } else {
                -self@
            }),
            r.wf(),
    {
        &self.magnitude
    }

    /// The additive inverse.
    pub fn neg(&self) -> (r: SignedBig)
        requires
            self.wf(),
        ensures
            r@ == -self@,
            r.wf(),
    {
        if self.magnitude.is_zero() {
            SignedBig { negative: false, magnitude: self.magnitude.clone_value() }
        } else {
            SignedBig { negative: !self.negative, magnitude: self.magnitude.clone_value() }
        }
    }

    /// The difference of two natural numbers, as a signed value.
    pub fn sub_naturals(a: &Natural, b: &Natural) -> (r: SignedBig)
        requires
            a.wf(),
            b.wf(),
        ensures
            r@ == a@ - b@,
            r.wf(),
    {
        if a.lt(b) {
            SignedBig { negative: true, magnitude: b.sub(a) }
        } else {
            SignedBig { negative: false, magnitude: a.sub(b) }
        }
    }

    /// The difference of two signed values.
    pub fn sub(&self, other: &SignedBig) -> (r: SignedBig)
        requires
            self.wf(),
            other.wf(),
        ensures
            r@ == self@ - other@,
            r.wf(),
    {
        if !self.negative && !other.negative {
            Self::sub_naturals(&self.magnitude, &other.magnitude)
        } else if !self.negative && other.negative {
            SignedBig { negative: false, magnitude: self.magnitude.add(&other.magnitude) }
        } else if self.negative && !other.negative {
            SignedBig { negative: true, magnitude: self.magnitude.add(&other.magnitude) }
        } else {
            Self::sub_naturals(&other.magnitude, &self.magnitude)
        }
    }

    /// The product with a natural number.
    pub fn mul_natural(&self, n: &Natural) -> (r: SignedBig)
        requires
            self.wf(),
            n.wf(),
        ensures
            r@ == self@ * n@,
            r.wf(),
    {
        let m = self.magnitude.mul(n);
        proof {
            if self.negative {
                assert(self@ * n@ == -((self.magnitude@ * n@) as int)) by (nonlinear_arith)
                    requires
                        self@ == -(self.magnitude@ as int),
                ;
            }
        }
        if self.negative && !m.is_zero() {
            SignedBig { negative: true, magnitude: m }
        } else {
            proof {
                if self.negative {
                    assert(self@ * n@ == 0);
                }
            }
            SignedBig { negative: false, magnitude: m }
        }
    }

    /// The least non-negative residue of the value modulo `m`.
    pub fn mod_floor(&self, m: &Natural) -> (r: Natural)
        requires
            self.wf(),
            m.wf(),
            m@ > 0,
        ensures
            r@ == self@ % (m@ as int),
            r.wf(),
    {
        let (q, rem) = self.magnitude.div_rem(m);
        if self.negative {
            if rem.is_zero() {
                proof {
                    vstd::arithmetic::div_mod::lemma_fundamental_div_mod(
                        self.magnitude@ as int,
                        m@ as int,
                    );
                    assert(self@ == (-(q@ as int)) * (m@ as int) + 0) by (nonlinear_arith)
                        requires
                            self@ == -(self.magnitude@ as int),
                            self.magnitude@ as int == (q@ as int) * (m@ as int) + rem@,
                            rem@ == 0,
                    ;
                    vstd::arithmetic::div_mod::lemma_fundamental_div_mod_converse_mod(
                        self@,
                        m@ as int,
                        -(q@ as int),
                        0,
                    );
                }
                rem
            } else {
                proof {
                    vstd::arithmetic::div_mod::lemma_fundamental_div_mod(
                        self.magnitude@ as int,
                        m@ as int,
                    );
                    assert(self@ == (-(q@ as int) - 1) * (m@ as int) + (m@ - rem@)) by (
                    nonlinear_arith)
                        requires
                            self@ == -(self.magnitude@ as int),
                            self.magnitude@ as int == (q@ as int) * (m@ as int) + rem@,
                    ;
                    vstd::arithmetic::div_mod::lemma_fundamental_div_mod_converse_mod(
                        self@,
                        m@ as int,
                        -(q@ as int) - 1,
                        m@ - rem@,
                    );
                }
                m.sub(&rem)
            }
        } else {
            rem
        }
    }
}

} // verus!
