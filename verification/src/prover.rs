//! The prover: public-key derivation, commitment generation, and the
//! challenge response, plus the client-side cache of registered users.

use vstd::prelude::*;
use crate::natural::Natural;
use crate::signed::SignedBig;
use crate::group::GroupParams;
use crate::modular::pow_mod;
use crate::rng::gen_random_with_n_bits;
use crate::zkp_verifier::bytes_eq;

verus! {

/// The possible states for the user registration step.
#[derive(Debug, PartialEq, Eq)]
pub enum ZkpClientRegistrationStatus {
    AlreadyRegistered,
    Registered,
}

/// The possible states for the authentication step.
#[derive(Debug, PartialEq, Eq)]
pub enum ZkpClientAuthenticationStatus {
    Authenticated { session_id: String },
    NotAuthenticated { status: String },
    UnregisteredUser,
}

/// Generate the public data for the protocol: `(y1, y2) = (g^x, h^x) mod p`.
pub fn gen_public(params: &GroupParams, x: &Natural) -> (r: (Natural, Natural))
    requires
        params.wf(),
        x.wf(),
    ensures
        r.0.wf(),
        r.1.wf(),
        r.0@ == pow_mod(params.g@, x@, params.p@),
        r.1@ == pow_mod(params.h@, x@, params.p@),
{
    (params.get_g().modpow(x, params.get_p()), params.get_h().modpow(x, params.get_p()))
}

/// Compute the commitment for the ephemeral `k`:
/// `(r1, r2) = (g^k, h^k) mod p`.
pub fn gen_random(params: &GroupParams, k: u128) -> (r: (Natural, Natural))
    requires
        params.wf(),
    ensures
        r.0.wf(),
        r.1.wf(),
        r.0@ == pow_mod(params.g@, k as nat, params.p@),
        r.1@ == pow_mod(params.h@, k as nat, params.p@),
{
    let kn = Natural::from_u128(k);
    (params.get_g().modpow(&kn, params.get_p()), params.get_h().modpow(&kn, params.get_p()))
}

/// Draw a fresh 128-bit `k` and compute its commitment.
pub fn commit(params: &GroupParams) -> (r: (u128, Natural, Natural))
    requires
        params.wf(),
    ensures
        r.1.wf(),
        r.2.wf(),
        r.1@ == pow_mod(params.g@, r.0 as nat, params.p@),
        r.2@ == pow_mod(params.h@, r.0 as nat, params.p@),
{
    let k = gen_random_with_n_bits(128);
    let (r1, r2) = gen_random(params, k);
    (k, r1, r2)
}

/// Generate `s`, the challenge answer: `s = k - c * x`, not reduced.
pub fn challenge_answer(c: &Natural, k: u128, x: &Natural) -> (r: SignedBig)
    requires
        c.wf(),
        x.wf(),
    ensures
        r.wf(),
        r@ == k - c@ * x@,
{
    let kn = Natural::from_u128(k);
    SignedBig::sub_naturals(&kn, &c.mul(x))
}

/// The mathematical view of the prover.
pub ghost struct ProverModel {
    pub p: nat,
    pub g: nat,
    pub h: nat,
    pub registered: Set<Seq<u8>>,
}

/// The set of users held by the client cache.
pub open spec fn users_set(s: Seq<Vec<u8>>) -> Set<Seq<u8>>
    decreases s.len(),
{
    if s.len() == 0 {
        Set::empty()
    } else {
        users_set(s.drop_last()).insert(s.last()@)
    }
}

/// A scan of the cache agrees with the set.
proof fn lemma_users_set_lookup(s: Seq<Vec<u8>>, k: Seq<u8>)
    ensures
        forall|i: int| 0 <= i < s.len() && (#[trigger] s[i])@ == k ==> users_set(s).contains(k),
        (forall|i: int| 0 <= i < s.len() ==> (#[trigger] s[i])@ != k) ==> !users_set(s).contains(
            k,
        ),
    decreases s.len(),
{
    if s.len() > 0 {
        let t = s.drop_last();
        lemma_users_set_lookup(t, k);
        assert forall|i: int|
            0 <= i < s.len() && (#[trigger] s[i])@ == k implies users_set(s).contains(k) by {
            if i < s.len() - 1 {
                assert(t[i] == s[i]);
            }
        }
        if forall|i: int| 0 <= i < s.len() ==> (#[trigger] s[i])@ != k {
            assert forall|i: int| 0 <= i < t.len() implies (#[trigger] t[i])@ != k by {
                assert(t[i] == s[i]);
            }
            assert(s.last()@ != k);
        }
    }
}

/// The client-side prover: the group parameters and the local cache of
/// users registered through this client. The cache only short-circuits
/// duplicate registrations; the server remains the ground truth.
#[derive(Debug)]
pub struct Prover {
    params: GroupParams,
    registered: Vec<Vec<u8>>,
}

impl View for Prover {
    type V = ProverModel;

    closed spec fn view(&self) -> ProverModel {
        ProverModel {
            p: self.params.p@,
            g: self.params.g@,
            h: self.params.h@,
            registered: users_set(self.registered@),
        }
    }
}

impl Prover {
    pub closed spec fn wf(&self) -> bool {
        self.params.wf()
    }

    /// A fresh prover with an empty cache.
    pub fn new(params: GroupParams) -> (r: Prover)
        requires
            params.wf(),
        ensures
            r.wf(),
            r@.p == params.p@,
            r@.g == params.g@,
            r@.h == params.h@,
            r@.registered == Set::<Seq<u8>>::empty(),
    {
        Prover { params, registered: Vec::new() }
    }

    /// Whether this client already registered the user.
    pub fn is_registered(&self, user: &Vec<u8>) -> (r: bool)
        ensures
            r == self@.registered.contains(user@),
    {
        let mut i: usize = 0;
        while i < self.registered.len()
            invariant
                i <= self.registered@.len(),
                forall|j: int| 0 <= j < i ==> (#[trigger] self.registered@[j])@ != user@,
            decreases self.registered@.len() - i,
        {
            if bytes_eq(&self.registered[i], user) {
                proof {
                    lemma_users_set_lookup(self.registered@, user@);
                }
                return true;
            }
            i = i + 1;
        }
        proof {
            lemma_users_set_lookup(self.registered@, user@);
        }
        false
    }

    /// Start a registration: compute `(y1, y2)` for a user this client
    /// has not registered yet; `None` for one it has.
    pub fn register_begin(&self, user: &Vec<u8>, x: &Natural) -> (r: Option<(Natural, Natural)>)
        requires
            self.wf(),
            x.wf(),
        ensures
            match r {
                Some(pair) => {
                    &&& !self@.registered.contains(user@)
                    &&& pair.0.wf()
                    &&& pair.1.wf()
                    &&& pair.0@ == pow_mod(self@.g, x@, self@.p)
                    &&& pair.1@ == pow_mod(self@.h, x@, self@.p)
                },
                None => self@.registered.contains(user@),
            },
    {
        if self.is_registered(user) {
            return None;
        }
        Some(gen_public(&self.params, x))
    }

    /// Record that the server accepted the user's registration.
    pub fn register_complete(&mut self, user: Vec<u8>)
        requires
            old(self).wf(),
        ensures
            final(self).wf(),
            final(self)@.registered == old(self)@.registered.insert(user@),
            final(self)@.p == old(self)@.p,
            final(self)@.g == old(self)@.g,
            final(self)@.h == old(self)@.h,
    {
        if self.is_registered(&user) {
            proof {
                assert(self@.registered =~= self@.registered.insert(user@));
            }
            return ;
        }
        let ghost pre = self.registered@;
        self.registered.push(user);
        proof {
            assert(self.registered@.drop_last() =~= pre);
        }
    }

    /// Start a login attempt: a fresh `k` and its commitment for a user
    /// this client registered; `None` for one it did not.
    pub fn login_begin(&self, user: &Vec<u8>) -> (r: Option<(u128, Natural, Natural)>)
        requires
            self.wf(),
        ensures
            match r {
                Some(t) => {
                    &&& self@.registered.contains(user@)
                    &&& t.1.wf()
                    &&& t.2.wf()
                    &&& t.1@ == pow_mod(self@.g, t.0 as nat, self@.p)
                    &&& t.2@ == pow_mod(self@.h, t.0 as nat, self@.p)
                },
                None => !self@.registered.contains(user@),
            },
    {
        if !self.is_registered(user) {
            return None;
        }
        Some(commit(&self.params))
    }

    /// Finish a login attempt: the response `s = k - c * x`.
    pub fn login_finish(&self, c: &Natural, k: u128, x: &Natural) -> (r: SignedBig)
        requires
            c.wf(),
            x.wf(),
        ensures
            r.wf(),
            r@ == k - c@ * x@,
    {
        challenge_answer(c, k, x)
    }
}

} // verus!
