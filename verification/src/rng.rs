//! Randomness: 128-bit draws from the process RNG.
//!
//! The protocol needs fresh random values for the ephemeral `k`, the
//! challenge `c`, the `auth_id`, and the `session_id`. All are at most
//! 128 bits wide, so they live in `u128`.

use vstd::prelude::*;
use vstd::arithmetic::power2::pow2;

verus! {

/// Relies on `rand::Rng::gen` over `rand::thread_rng`: a uniformly random
/// `u128`. Nothing can be promised of the value itself.
#[verifier::external_body]
fn random_u128() -> u128 {
    let mut rng = rand::thread_rng();
    rand::Rng::gen(&mut rng)
}

/// Draw a non-negative random value of at most `n_bits` bits.
pub fn gen_random_with_n_bits(n_bits: u32) -> (r: u128)
    requires
        n_bits <= 128,
    ensures
        (r as nat) < pow2(n_bits as nat),
{
    let x = random_u128();
    if n_bits == 128 {
        proof {
            vstd::arithmetic::power2::lemma2_to64_rest();
            vstd::arithmetic::power2::lemma_pow2_adds(64, 64);
        }
        x
    } else {
        let mut m: u128 = 1;
        let mut i: u32 = 0;
        proof {
            vstd::arithmetic::power2::lemma2_to64();
        }
        while i < n_bits
            invariant
                i <= n_bits < 128,
                m == pow2(i as nat),
            decreases n_bits - i,
        {
            proof {
                vstd::arithmetic::power2::lemma_pow2_strictly_increases(
                    (i + 1) as nat,
                    128,
                );
                vstd::arithmetic::power2::lemma_pow2_adds(i as nat, 1);
                vstd::arithmetic::power2::lemma2_to64();
                vstd::arithmetic::power2::lemma2_to64_rest();
                vstd::arithmetic::power2::lemma_pow2_adds(64, 64);
            }
            m = m * 2;
            i = i + 1;
        }
        proof {
            vstd::arithmetic::power2::lemma_pow2_pos(n_bits as nat);
            vstd::arithmetic::div_mod::lemma_mod_bound(x as int, m as int);
        }
        x % m
    }
}

/// A fresh 128-bit challenge `c`.
pub fn request_challenge() -> (r: u128)
    ensures
        (r as nat) < pow2(128),
{
    gen_random_with_n_bits(128)
}

} // verus!
