//! The verifier: per-user public keys, per-attempt state, the `auth_id`
//! table, and the Chaum-Pedersen verification equation.
//!
//! The verifier holds two associations: user -> record (public key and
//! latest attempt state) and auth_id -> user. Their mathematical model is
//! a pair of maps; every method's contract is stated against a spec-level
//! transition function on that model.

use vstd::prelude::*;
use vstd::arithmetic::power2::pow2;
use crate::natural::Natural;
use crate::signed::SignedBig;
use crate::group::GroupParams;
use crate::modular::{modpow_signed, mul_mod, signed_pow_ok, signed_pow_mod};
use crate::codec::{
    parse_natural, parse_signed, is_dec, dec_val, is_signed_dec, signed_dec_val,
};
use crate::rng::{gen_random_with_n_bits, request_challenge};

verus! {

/// The typed failures the protocol surfaces.
#[derive(Debug, Clone, Copy, PartialEq, Eq, Structural)]
pub enum ZkpError {
    /// A numeric wire field could not be parsed.
    InvalidArgument,
    /// A challenge was requested for an unknown user.
    NotFound,
    /// The verification equation failed, or the attempt state is missing.
    Unauthenticated,
}

/// What the verifier stores for one user: the public key `(y1, y2)` and
/// the latest attempt state `(r1, r2, c)`.
#[derive(Debug, Clone, PartialEq, Eq)]
pub struct VerifierUserState {
    pub y1: Natural,
    pub y2: Natural,
    pub r1: Option<Natural>,
    pub r2: Option<Natural>,
    pub c: Option<u128>,
}

impl VerifierUserState {
    pub open spec fn wf(&self) -> bool {
        &&& self.y1.wf()
        &&& self.y2.wf()
        &&& (self.r1 is Some ==> self.r1.unwrap().wf())
        &&& (self.r2 is Some ==> self.r2.unwrap().wf())
    }

    /// The mathematical content of the record.
    pub open spec fn model(&self) -> UserModel {
        UserModel {
            y1: self.y1@,
            y2: self.y2@,
            r1: if self.r1 is Some {
                Some(self.r1.unwrap()@)
            } else {
                None
            },
            r2: if self.r2 is Some {
                Some(self.r2.unwrap()@)
            } else {
                None
            },
            c: self.c,
        }
    }
}

/// The mathematical view of one user's record.
pub ghost struct UserModel {
    pub y1: nat,
    pub y2: nat,
    pub r1: Option<nat>,
    pub r2: Option<nat>,
    pub c: Option<u128>,
}

/// The mathematical view of the whole verifier.
pub ghost struct VerifierModel {
    pub p: nat,
    pub g: nat,
    pub h: nat,
    pub users: Map<Seq<u8>, UserModel>,
    pub auths: Map<u128, Seq<u8>>,
}

/// No user appears twice.
pub open spec fn distinct_user_keys(s: Seq<(Vec<u8>, VerifierUserState)>) -> bool {
    forall|i: int, j: int|
        0 <= i < j < s.len() ==> (#[trigger] s[i]).0@ != (#[trigger] s[j]).0@
}

/// No auth_id appears twice.
pub open spec fn distinct_auth_keys(s: Seq<(u128, Vec<u8>)>) -> bool {
    forall|i: int, j: int|
        0 <= i < j < s.len() ==> (#[trigger] s[i]).0 != (#[trigger] s[j]).0
}

/// The map held by a user association list; a later entry would win.
pub open spec fn users_map(s: Seq<(Vec<u8>, VerifierUserState)>) -> Map<Seq<u8>, UserModel>
    decreases s.len(),
{
    if s.len() == 0 {
        Map::empty()
    } else {
        users_map(s.drop_last()).insert(s.last().0@, s.last().1.model())
    }
}

/// The map held by an auth_id association list.
pub open spec fn auths_map(s: Seq<(u128, Vec<u8>)>) -> Map<u128, Seq<u8>>
    decreases s.len(),
{
    if s.len() == 0 {
        Map::empty()
    } else {
        auths_map(s.drop_last()).insert(s.last().0, s.last().1@)
    }
}

/// With distinct keys, the map agrees with a scan of the list: a hit at
/// any position gives the map entry, and a miss everywhere means the key
/// is absent.
proof fn lemma_users_map_lookup(s: Seq<(Vec<u8>, VerifierUserState)>, k: Seq<u8>)
    requires
        distinct_user_keys(s),
    ensures
        forall|i: int|
            0 <= i < s.len() && (#[trigger] s[i]).0@ == k ==> users_map(s).contains_key(k)
                && users_map(s)[k] == s[i].1.model(),
        (forall|i: int| 0 <= i < s.len() ==> (#[trigger] s[i]).0@ != k) ==> !users_map(
            s,
        ).contains_key(k),
    decreases s.len(),
{
    if s.len() > 0 {
        let t = s.drop_last();
        assert(distinct_user_keys(t)) by {
            assert forall|i: int, j: int| 0 <= i < j < t.len() implies (#[trigger] t[i]).0@ != (
            #[trigger] t[j]).0@ by {
                assert(s[i] == t[i] && s[j] == t[j]);
            }
        }
        lemma_users_map_lookup(t, k);
        let last = s.len() - 1;
        assert forall|i: int|
            0 <= i < s.len() && (#[trigger] s[i]).0@ == k implies users_map(s).contains_key(k)
            && users_map(s)[k] == s[i].1.model() by {
            if i == last {
            } else {
                assert(t[i] == s[i]);
                assert(s[i].0@ != s[last].0@);
            }
        }
        if forall|i: int| 0 <= i < s.len() ==> (#[trigger] s[i]).0@ != k {
            assert forall|i: int| 0 <= i < t.len() implies (#[trigger] t[i]).0@ != k by {
                assert(t[i] == s[i]);
            }
            assert(s[last].0@ != k);
        }
    }
}

/// With distinct keys, the map agrees with a scan of the list: a hit at
/// any position gives the map entry, and a miss everywhere means the key
/// is absent.
proof fn lemma_auths_map_lookup(s: Seq<(u128, Vec<u8>)>, k: u128)
    requires
        distinct_auth_keys(s),
    ensures
        forall|i: int|
            0 <= i < s.len() && (#[trigger] s[i]).0 == k ==> auths_map(s).contains_key(k)
                && auths_map(s)[k] == s[i].1@,
        (forall|i: int| 0 <= i < s.len() ==> (#[trigger] s[i]).0 != k) ==> !auths_map(
            s,
        ).contains_key(k),
    decreases s.len(),
{
    if s.len() > 0 {
        let t = s.drop_last();
        assert(distinct_auth_keys(t)) by {
            assert forall|i: int, j: int| 0 <= i < j < t.len() implies (#[trigger] t[i]).0 != (
            #[trigger] t[j]).0 by {
                assert(s[i] == t[i] && s[j] == t[j]);
            }
        }
        lemma_auths_map_lookup(t, k);
        let last = s.len() - 1;
        assert forall|i: int|
            0 <= i < s.len() && (#[trigger] s[i]).0 == k implies auths_map(s).contains_key(k)
            && auths_map(s)[k] == s[i].1@ by {
            if i == last {
            } else {
                assert(t[i] == s[i]);
                assert(s[i].0 != s[last].0);
            }
        }
        if forall|i: int| 0 <= i < s.len() ==> (#[trigger] s[i]).0 != k {
            assert forall|i: int| 0 <= i < t.len() implies (#[trigger] t[i]).0 != k by {
                assert(t[i] == s[i]);
            }
            assert(s[last].0 != k);
        }
    }
}

/// Overwriting an entry in place is an insert on the map.
proof fn lemma_users_map_update(
    s: Seq<(Vec<u8>, VerifierUserState)>,
    i: int,
    v: VerifierUserState,
)
    requires
        distinct_user_keys(s),
        0 <= i < s.len(),
    ensures
        users_map(s.update(i, (s[i].0, v))) == users_map(s).insert(s[i].0@, v.model()),
    decreases s.len(),
{
    let s2 = s.update(i, (s[i].0, v));
    let t = s.drop_last();
    let last = s.len() - 1;
    if i == last {
        assert(s2.drop_last() =~= t);
        assert(s2.last() == (s[i].0, v));
        assert(users_map(s2) == users_map(t).insert(s[i].0@, v.model()));
        assert(users_map(t).insert(s[i].0@, v.model()) =~= users_map(s).insert(
            s[i].0@,
            v.model(),
        ));
    } else {
        assert(distinct_user_keys(t)) by {
            assert forall|a: int, b: int| 0 <= a < b < t.len() implies (#[trigger] t[a]).0@ != (
            #[trigger] t[b]).0@ by {
                assert(s[a] == t[a] && s[b] == t[b]);
            }
        }
        assert(t[i] == s[i]);
        lemma_users_map_update(t, i, v);
        assert(s2.drop_last() =~= t.update(i, (t[i].0, v)));
        assert(s2.last() == s.last());
        assert(users_map(s2) == users_map(t).insert(s[i].0@, v.model()).insert(
            s.last().0@,
            s.last().1.model(),
        ));
        // The two keys differ, so the inserts commute.
        assert(s[i].0@ != s.last().0@);
        assert(users_map(t).insert(s[i].0@, v.model()).insert(s.last().0@, s.last().1.model())
            =~= users_map(s).insert(s[i].0@, v.model()));
    }
}

/// Overwriting an entry in place is an insert on the map.
proof fn lemma_auths_map_update(s: Seq<(u128, Vec<u8>)>, i: int, v: Vec<u8>)
    requires
        distinct_auth_keys(s),
        0 <= i < s.len(),
    ensures
        auths_map(s.update(i, (s[i].0, v))) == auths_map(s).insert(s[i].0, v@),
    decreases s.len(),
{
    let s2 = s.update(i, (s[i].0, v));
    let t = s.drop_last();
    let last = s.len() - 1;
    if i == last {
        assert(s2.drop_last() =~= t);
        assert(s2.last() == (s[i].0, v));
        assert(auths_map(s2) == auths_map(t).insert(s[i].0, v@));
        assert(auths_map(t).insert(s[i].0, v@) =~= auths_map(s).insert(s[i].0, v@));
    } else {
        assert(distinct_auth_keys(t)) by {
            assert forall|a: int, b: int| 0 <= a < b < t.len() implies (#[trigger] t[a]).0 != (
            #[trigger] t[b]).0 by {
                assert(s[a] == t[a] && s[b] == t[b]);
            }
        }
        assert(t[i] == s[i]);
        lemma_auths_map_update(t, i, v);
        assert(s2.drop_last() =~= t.update(i, (t[i].0, v)));
        assert(s2.last() == s.last());
        assert(auths_map(s2) == auths_map(t).insert(s[i].0, v@).insert(s.last().0, s.last().1@));
        assert(s[i].0 != s.last().0);
        assert(auths_map(t).insert(s[i].0, v@).insert(s.last().0, s.last().1@) =~= auths_map(
            s,
        ).insert(s[i].0, v@));
    }
}

/// The Chaum-Pedersen verification equation over mathematical values:
/// `r1 == g^s * y1^c mod p` and `r2 == h^s * y2^c mod p`, with signed
/// exponents; it fails where a needed modular inverse does not exist.
pub open spec fn accepts(
    p: nat,
    g: nat,
    h: nat,
    y1: nat,
    y2: nat,
    r1: nat,
    r2: nat,
    c: int,
    s: int,
) -> bool {
    &&& signed_pow_ok(g, s, p)
    &&& signed_pow_ok(h, s, p)
    &&& signed_pow_ok(y1, c, p)
    &&& signed_pow_ok(y2, c, p)
    &&& r1 == (signed_pow_mod(g, s, p) * signed_pow_mod(y1, c, p)) % p
    &&& r2 == (signed_pow_mod(h, s, p) * signed_pow_mod(y2, c, p)) % p
}

/// One registration step on the model: known users succeed idempotently
/// and unchanged; unknown users are stored after strict parsing.
pub open spec fn spec_register(
    m: VerifierModel,
    user: Seq<u8>,
    y1t: Seq<u8>,
    y2t: Seq<u8>,
) -> (VerifierModel, Result<(), ZkpError>) {
    if m.users.contains_key(user) {
        (m, Ok(()))
    } else if is_dec(y1t) && is_dec(y2t) {
        (
            VerifierModel {
                users: m.users.insert(
                    user,
                    UserModel { y1: dec_val(y1t), y2: dec_val(y2t), r1: None, r2: None, c: None },
                ),
                ..m
            },
            Ok(()),
        )
    } else {
        (m, Err(ZkpError::InvalidArgument))
    }
}

/// One challenge step on the model: parse strictly, require the user to
/// exist, then overwrite the attempt state and bind `aid` to the user.
pub open spec fn spec_challenge(
    m: VerifierModel,
    user: Seq<u8>,
    r1t: Seq<u8>,
    r2t: Seq<u8>,
    aid: u128,
    c: u128,
) -> (VerifierModel, Result<(u128, u128), ZkpError>) {
    if !(is_dec(r1t) && is_dec(r2t)) {
        (m, Err(ZkpError::InvalidArgument))
    } else if !m.users.contains_key(user) {
        (m, Err(ZkpError::NotFound))
    } else {
        let prior = m.users[user];
        (
            VerifierModel {
                users: m.users.insert(
                    user,
                    UserModel {
                        y1: prior.y1,
                        y2: prior.y2,
                        r1: Some(dec_val(r1t)),
                        r2: Some(dec_val(r2t)),
                        c: Some(c),
                    },
                ),
                auths: m.auths.insert(aid, user),
                ..m
            },
            Ok((aid, c)),
        )
    }
}

/// The decision of one verification step on the model. Missing state of
/// any kind is reported as `Unauthenticated`, the safe default.
pub open spec fn spec_verify(m: VerifierModel, aidt: Seq<u8>, st: Seq<u8>) -> Result<
    (),
    ZkpError,
> {
    if !(is_dec(aidt) && is_signed_dec(st)) {
        Err(ZkpError::InvalidArgument)
    } else if dec_val(aidt) >= pow2(128) {
        Err(ZkpError::Unauthenticated)
    } else if !m.auths.contains_key(dec_val(aidt) as u128) {
        Err(ZkpError::Unauthenticated)
    } else if !m.users.contains_key(m.auths[dec_val(aidt) as u128]) {
        Err(ZkpError::Unauthenticated)
    } else {
        let um = m.users[m.auths[dec_val(aidt) as u128]];
        if um.r1 is Some && um.r2 is Some && um.c is Some && accepts(
            m.p,
            m.g,
            m.h,
            um.y1,
            um.y2,
            um.r1.unwrap(),
            um.r2.unwrap(),
            um.c.unwrap() as int,
            signed_dec_val(st),
        ) {
            Ok(())
        } else {
            Err(ZkpError::Unauthenticated)
        }
    }
}

/// Byte-string equality.
pub(crate) fn bytes_eq(a: &Vec<u8>, b: &Vec<u8>) -> (r: bool)
    ensures
        r == (a@ == b@),
{
    if a.len() != b.len() {
        return false;
    }
    let mut i: usize = 0;
    while i < a.len()
        invariant
            i <= a@.len(),
            a@.len() == b@.len(),
            forall|j: int| 0 <= j < i ==> a@[j] == b@[j],
        decreases a@.len() - i,
    {
        if a[i] != b[i] {
            return false;
        }
        i = i + 1;
    }
    proof {
        assert(a@ =~= b@);
    }
    true
}

/// Evaluate the verification equation for one response.
///
/// `A = g^s`, `B = h^s`, `C = y1^c`, `D = y2^c`, all mod `p` with signed
/// exponents; accept exactly when `A * C mod p == r1` and
/// `B * D mod p == r2`.
pub fn verify(
    s: &SignedBig,
    c: &SignedBig,
    y1: &Natural,
    y2: &Natural,
    r1: &Natural,
    r2: &Natural,
    params: &GroupParams,
) -> (r: bool)
    requires
        s.wf(),
        c.wf(),
        y1.wf(),
        y2.wf(),
        r1.wf(),
        r2.wf(),
        params.wf(),
    ensures
        r == accepts(params.p@, params.g@, params.h@, y1@, y2@, r1@, r2@, c@, s@),
{
    let p = params.get_p();
    let val1 = match modpow_signed(params.get_g(), s, p) {
        Some(v) => v,
        None => {
            return false;
        },
    };
    let val2 = match modpow_signed(params.get_h(), s, p) {
        Some(v) => v,
        None => {
            return false;
        },
    };
    let val3 = match modpow_signed(y1, c, p) {
        Some(v) => v,
        None => {
            return false;
        },
    };
    let val4 = match modpow_signed(y2, c, p) {
        Some(v) => v,
        None => {
            return false;
        },
    };
    let r1_prime = mul_mod(&val1, &val3, p);
    let r2_prime = mul_mod(&val2, &val4, p);
    r1.equals(&r1_prime) && r2.equals(&r2_prime)
}

/// The verifier's state: the group parameters and the two associations.
#[derive(Debug)]
pub struct Verifier {
    params: GroupParams,
    users: Vec<(Vec<u8>, VerifierUserState)>,
    auth_ids: Vec<(u128, Vec<u8>)>,
}

impl View for Verifier {
    type V = VerifierModel;

    closed spec fn view(&self) -> VerifierModel {
        VerifierModel {
            p: self.params.p@,
            g: self.params.g@,
            h: self.params.h@,
            users: users_map(self.users@),
            auths: auths_map(self.auth_ids@),
        }
    }
}

impl Verifier {
    /// Well-formed parameters, well-formed records, and no duplicate keys.
    pub closed spec fn wf(&self) -> bool {
        &&& self.params.wf()
        &&& distinct_user_keys(self.users@)
        &&& distinct_auth_keys(self.auth_ids@)
        &&& forall|i: int|
            0 <= i < self.users@.len() ==> (#[trigger] self.users@[i]).1.wf()
    }

    /// A fresh verifier with no registered users.
    pub fn new(params: GroupParams) -> (r: Verifier)
        requires
            params.wf(),
        ensures
            r.wf(),
            r@.p == params.p@,
            r@.g == params.g@,
            r@.h == params.h@,
            r@.users == Map::<Seq<u8>, UserModel>::empty(),
            r@.auths == Map::<u128, Seq<u8>>::empty(),
    {
        Verifier { params, users: Vec::new(), auth_ids: Vec::new() }
    }

    /// Find a user's position, with the facts the map model needs.
    fn find_user_index(&self, user: &Vec<u8>) -> (r: Option<usize>)
        requires
            self.wf(),
        ensures
            match r {
                Some(i) => {
                    &&& i < self.users@.len()
                    &&& self.users@[i as int].0@ == user@
                    &&& self@.users.contains_key(user@)
                    &&& self@.users[user@] == self.users@[i as int].1.model()
                },
                None => !self@.users.contains_key(user@),
            },
    {
        proof {
            lemma_users_map_lookup(self.users@, user@);
        }
        let mut i: usize = 0;
        while i < self.users.len()
            invariant
                self.wf(),
                i <= self.users@.len(),
                forall|j: int| 0 <= j < i ==> (#[trigger] self.users@[j]).0@ != user@,
            decreases self.users@.len() - i,
        {
            if bytes_eq(&self.users[i].0, user) {
                proof {
                    lemma_users_map_lookup(self.users@, user@);
                    assert((self.users@[i as int]).0@ == user@);
                }
                return Some(i);
            }
            i = i + 1;
        }
        None
    }

    /// Find an auth_id's position, with the facts the map model needs.
    fn find_auth_index(&self, aid: u128) -> (r: Option<usize>)
        requires
            self.wf(),
        ensures
            match r {
                Some(i) => {
                    &&& i < self.auth_ids@.len()
                    &&& self.auth_ids@[i as int].0 == aid
                    &&& self@.auths.contains_key(aid)
                    &&& self@.auths[aid] == self.auth_ids@[i as int].1@
                },
                None => !self@.auths.contains_key(aid),
            },
    {
        proof {
            lemma_auths_map_lookup(self.auth_ids@, aid);
        }
        let mut i: usize = 0;
        while i < self.auth_ids.len()
            invariant
                self.wf(),
                i <= self.auth_ids@.len(),
                forall|j: int| 0 <= j < i ==> (#[trigger] self.auth_ids@[j]).0 != aid,
            decreases self.auth_ids@.len() - i,
        {
            if self.auth_ids[i].0 == aid {
                proof {
                    lemma_auths_map_lookup(self.auth_ids@, aid);
                    assert((self.auth_ids@[i as int]).0 == aid);
                }
                return Some(i);
            }
            i = i + 1;
        }
        None
    }

    /// Register a user: idempotent success for a known user, strict
    /// parsing of `y1` and `y2` for a new one.
    pub fn register(&mut self, user: Vec<u8>, y1_text: &Vec<u8>, y2_text: &Vec<u8>) -> (r:
        Result<(), ZkpError>)
        requires
            old(self).wf(),
        ensures
            final(self).wf(),
            ({
                let (m1, rr) = spec_register(old(self)@, user@, y1_text@, y2_text@);
                final(self)@ == m1 && r == rr
            }),
    {
        if self.find_user_index(&user).is_some() {
            return Ok(());
        }
        let y1 = match parse_natural(y1_text) {
            Some(n) => n,
            None => {
                return Err(ZkpError::InvalidArgument);
            },
        };
        let y2 = match parse_natural(y2_text) {
            Some(n) => n,
            None => {
                return Err(ZkpError::InvalidArgument);
            },
        };
        let ghost pre = self.users@;
        let state = VerifierUserState { y1, y2, r1: None, r2: None, c: None };
        self.users.push((user, state));
        proof {
            assert(self.users@.drop_last() =~= pre);
            assert forall|i: int, j: int| 0 <= i < j < self.users@.len() implies (
            #[trigger] self.users@[i]).0@ != (#[trigger] self.users@[j]).0@ by {
                if j < self.users@.len() - 1 {
                    assert(pre[i] == self.users@[i] && pre[j] == self.users@[j]);
                } else {
                    lemma_users_map_lookup(pre, self.users@[j].0@);
                    assert(pre[i] == self.users@[i]);
                }
            }
        }
        Ok(())
    }

    /// The challenge step with the randomness passed in: parse `r1`, `r2`,
    /// require the user to exist, store the attempt state, bind `auth_id`.
    pub fn create_authentication_challenge_with(
        &mut self,
        user: Vec<u8>,
        r1_text: &Vec<u8>,
        r2_text: &Vec<u8>,
        auth_id: u128,
        c: u128,
    ) -> (r: Result<(u128, u128), ZkpError>)
        requires
            old(self).wf(),
        ensures
            final(self).wf(),
            ({
                let (m1, rr) = spec_challenge(old(self)@, user@, r1_text@, r2_text@, auth_id, c);
                final(self)@ == m1 && r == rr
            }),
    {
        let r1 = match parse_natural(r1_text) {
            Some(n) => n,
            None => {
                return Err(ZkpError::InvalidArgument);
            },
        };
        let r2 = match parse_natural(r2_text) {
            Some(n) => n,
            None => {
                return Err(ZkpError::InvalidArgument);
            },
        };
        let i = match self.find_user_index(&user) {
            Some(i) => i,
            None => {
                return Err(ZkpError::NotFound);
            },
        };
        let ghost pre = self.users@;
        let (key, prior) = self.users.remove(i);
        let state = VerifierUserState {
            y1: prior.y1,
            y2: prior.y2,
            r1: Some(r1),
            r2: Some(r2),
            c: Some(c),
        };
        self.users.insert(i, (key, state));
        proof {
            assert(self.users@ =~= pre.update(i as int, (pre[i as int].0, state)));
            lemma_users_map_update(pre, i as int, state);
            assert forall|a: int, b: int| 0 <= a < b < self.users@.len() implies (
            #[trigger] self.users@[a]).0@ != (#[trigger] self.users@[b]).0@ by {
                assert(self.users@[a].0@ == pre[a].0@ && self.users@[b].0@ == pre[b].0@);
            }
        }
        let ghost pre_auth = self.auth_ids@;
        match self.find_auth_index(auth_id) {
            Some(j) => {
                let (aid_key, _old_user) = self.auth_ids.remove(j);
                self.auth_ids.insert(j, (aid_key, user));
                proof {
                    assert(self.auth_ids@ =~= pre_auth.update(
                        j as int,
                        (pre_auth[j as int].0, user),
                    ));
                    lemma_auths_map_update(pre_auth, j as int, user);
                    assert forall|a: int, b: int|
                        0 <= a < b < self.auth_ids@.len() implies (
                    #[trigger] self.auth_ids@[a]).0 != (#[trigger] self.auth_ids@[b]).0 by {
                        assert(self.auth_ids@[a].0 == pre_auth[a].0 && self.auth_ids@[b].0
                            == pre_auth[b].0);
                    }
                }
            },
            None => {
                self.auth_ids.push((auth_id, user));
                proof {
                    assert(self.auth_ids@.drop_last() =~= pre_auth);
                    assert forall|a: int, b: int|
                        0 <= a < b < self.auth_ids@.len() implies (
                    #[trigger] self.auth_ids@[a]).0 != (#[trigger] self.auth_ids@[b]).0 by {
                        if b < self.auth_ids@.len() - 1 {
                            assert(pre_auth[a] == self.auth_ids@[a] && pre_auth[b]
                                == self.auth_ids@[b]);
                        } else {
                            lemma_auths_map_lookup(pre_auth, self.auth_ids@[b].0);
                            assert(pre_auth[a] == self.auth_ids@[a]);
                        }
                    }
                }
            },
        }
        Ok((auth_id, c))
    }

    /// Create an authentication challenge: draw a fresh 128-bit `auth_id`
    /// and challenge `c`, then take the challenge step with them.
    pub fn create_authentication_challenge(
        &mut self,
        user: Vec<u8>,
        r1_text: &Vec<u8>,
        r2_text: &Vec<u8>,
    ) -> (r: Result<(u128, u128), ZkpError>)
        requires
            old(self).wf(),
        ensures
            final(self).wf(),
            match r {
                Ok(v) => ({
                    let (m1, rr) = spec_challenge(
                        old(self)@,
                        user@,
                        r1_text@,
                        r2_text@,
                        v.0,
                        v.1,
                    );
                    final(self)@ == m1 && rr == Ok::<(u128, u128), ZkpError>(v)
                }),
                Err(e) => ({
                    let (m1, rr) = spec_challenge(old(self)@, user@, r1_text@, r2_text@, 0, 0);
                    final(self)@ == m1 && rr == Err::<(u128, u128), ZkpError>(e)
                }),
            },
    {
        let auth_id = gen_random_with_n_bits(128);
        let c = request_challenge();
        let r = self.create_authentication_challenge_with(user, r1_text, r2_text, auth_id, c);
        r
    }

    /// Verify a response: look the attempt up by `auth_id`, evaluate the
    /// equation, and mint a fresh 128-bit session id on success.
    pub fn verify_authentication(&self, auth_id_text: &Vec<u8>, s_text: &Vec<u8>) -> (r: Result<
        u128,
        ZkpError,
    >)
        requires
            self.wf(),
        ensures
            match r {
                Ok(_) => spec_verify(self@, auth_id_text@, s_text@) == Ok::<(), ZkpError>(()),
                Err(e) => spec_verify(self@, auth_id_text@, s_text@) == Err::<(), ZkpError>(e),
            },
    {
        let aid_nat = match parse_natural(auth_id_text) {
            Some(n) => n,
            None => {
                return Err(ZkpError::InvalidArgument);
            },
        };
        let s_val = match parse_signed(s_text) {
            Some(v) => v,
            None => {
                return Err(ZkpError::InvalidArgument);
            },
        };
        let aid = match aid_nat.to_u128() {
            Some(v) => v,
            None => {
                return Err(ZkpError::Unauthenticated);
            },
        };
        proof {
            vstd::arithmetic::power2::lemma2_to64_rest();
            vstd::arithmetic::power2::lemma_pow2_adds(64, 64);
            assert(dec_val(auth_id_text@) < pow2(128));
        }
        let j = match self.find_auth_index(aid) {
            Some(j) => j,
            None => {
                return Err(ZkpError::Unauthenticated);
            },
        };
        let i = match self.find_user_index(&self.auth_ids[j].1) {
            Some(i) => i,
            None => {
                return Err(ZkpError::Unauthenticated);
            },
        };
        let state = &self.users[i].1;
        let (r1, r2, c) = match (&state.r1, &state.r2, &state.c) {
            (Some(r1), Some(r2), Some(c)) => (r1, r2, *c),
            _ => {
                return Err(ZkpError::Unauthenticated);
            },
        };
        let c_signed = SignedBig::from_natural(Natural::from_u128(c));
        let ok = verify(&s_val, &c_signed, &state.y1, &state.y2, r1, r2, &self.params);
        if ok {
            Ok(gen_random_with_n_bits(128))
        } else {
            Err(ZkpError::Unauthenticated)
        }
    }
}

} // verus!
