//! The shared group parameters `(p, g, h)`.
//!
//! Both peers use the same parameters; the defaults are `p = 2^255 - 19`,
//! `g = 5`, `h = 3`. They are set once and never mutated.

use vstd::prelude::*;
use vstd::arithmetic::power2::pow2;
use crate::natural::Natural;

verus! {

/// The prime modulus and the two generators of the protocol.
#[derive(Debug, Clone, PartialEq, Eq)]
pub struct GroupParams {
    pub p: Natural,
    pub g: Natural,
    pub h: Natural,
}

impl GroupParams {
    /// `p` is odd and at least 3, and both generators lie strictly
    /// between 0 and `p`. (That `p` is in fact prime is not checked at
    /// run time; the lemmas that need primality assume it explicitly.)
    pub open spec fn wf(&self) -> bool {
        &&& self.p.wf()
        &&& self.g.wf()
        &&& self.h.wf()
        &&& self.p@ >= 3
        &&& self.p@ % 2 == 1
        &&& 0 < self.g@ < self.p@
        &&& 0 < self.h@ < self.p@
    }

    /// The modulus.
    pub fn get_p(&self) -> (r: &Natural)
        ensures
            *r == self.p,
    {
        &self.p
    }

    /// The first generator.
    pub fn get_g(&self) -> (r: &Natural)
        ensures
            *r == self.g,
    {
        &self.g
    }

    /// The second generator.
    pub fn get_h(&self) -> (r: &Natural)
        ensures
            *r == self.h,
    {
        &self.h
    }

    /// Build parameters from caller-supplied values, checking the shape
    /// that `wf` demands.
    pub fn new(p: Natural, g: Natural, h: Natural) -> (r: Option<GroupParams>)
        requires
            p.wf(),
            g.wf(),
            h.wf(),
        ensures
            match r {
                Some(params) => {
                    &&& params.wf()
                    &&& params.p@ == p@
                    &&& params.g@ == g@
                    &&& params.h@ == h@
                },
                None => !(p@ >= 3 && p@ % 2 == 1 && 0 < g@ < p@ && 0 < h@ < p@),
            },
    {
        let three = Natural::from_u128(3);
        let two = Natural::from_u128(2);
        if p.lt(&three) {
            return None;
        }
        let (_q, parity) = p.div_rem(&two);
        if parity.is_zero() {
            return None;
        }
        proof {
            vstd::arithmetic::div_mod::lemma_mod_bound(p@ as int, 2);
        }
        if g.is_zero() || !g.lt(&p) {
            return None;
        }
        if h.is_zero() || !h.lt(&p) {
            return None;
        }
        Some(GroupParams { p, g, h })
    }

    /// The default parameters: `p = 2^255 - 19`, `g = 5`, `h = 3`.
    pub fn init() -> (r: GroupParams)
        ensures
            r.wf(),
            r.p@ == pow2(255) - 19,
            r.g@ == 5,
            r.h@ == 3,
    {
        let two = Natural::from_u128(2);
        let e127 = Natural::from_u128(0x8000_0000_0000_0000_0000_0000_0000_0000u128);
        let p = e127.mul(&e127).mul(&two).sub(&Natural::from_u128(19));
        proof {
            vstd::arithmetic::power2::lemma2_to64();
            vstd::arithmetic::power2::lemma2_to64_rest();
            vstd::arithmetic::power2::lemma_pow2_adds(64, 63);
            assert(e127@ == pow2(127));
            vstd::arithmetic::power2::lemma_pow2_adds(127, 127);
            vstd::arithmetic::power2::lemma_pow2_adds(254, 1);
            vstd::arithmetic::power2::lemma_pow2_strictly_increases(6, 254);
            assert(e127@ * e127@ * 2 == pow2(254) * pow2(1));
            assert(p@ == pow2(255) - 19);
            // 2^255 - 19 is odd.
            assert((2 * (pow2(254) - 10) + 1) % 2 == 1) by {
                vstd::arithmetic::div_mod::lemma_mod_multiples_vanish(
                    pow2(254) - 10,
                    1,
                    2,
                );
                vstd::arithmetic::div_mod::lemma_small_mod(1, 2);
            }
            assert(p@ % 2 == 1);
        }
        let g = Natural::from_u128(5);
        let h = Natural::from_u128(3);
        GroupParams { p, g, h }
    }
}

} // verus!
