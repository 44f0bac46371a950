//! The protocol end to end: scenarios over the small hand-checkable
//! group (p = 10009, g = 3, h = 2) and property runs over the default
//! parameters.

use zkp_auth::codec::parse_signed;
use zkp_auth::group::GroupParams;
use zkp_auth::http::{authentication_reply, registration_reply};
use zkp_auth::natural::Natural;
use zkp_auth::prover::{
    challenge_answer, commit, gen_public, gen_random, Prover, ZkpClientAuthenticationStatus,
    ZkpClientRegistrationStatus,
};
use zkp_auth::signed::SignedBig;
use zkp_auth::zkp_verifier::{verify, Verifier, ZkpError};

fn small_params() -> GroupParams {
    GroupParams::new(
        Natural::from_u128(10009),
        Natural::from_u128(3),
        Natural::from_u128(2),
    )
    .unwrap()
}

fn dec(n: &Natural) -> String {
    String::from_utf8(zkp_auth::codec::to_decimal(n)).unwrap()
}

#[test]
fn s1_happy_path() {
    // x = 7: y1 = 3^7 mod 10009 = 2187, y2 = 2^7 mod 10009 = 128.
    let params = small_params();
    let x = Natural::from_u128(7);
    let (y1, y2) = gen_public(&params, &x);
    assert_eq!(dec(&y1), "2187");
    assert_eq!(dec(&y2), "128");

    // k = 11: r1 = 3^11 mod 10009 = 6994, r2 = 2^11 mod 10009 = 2048.
    let (r1, r2) = gen_random(&params, 11);
    assert_eq!(dec(&r1), "6994");
    assert_eq!(dec(&r2), "2048");

    // c = 4: s = 11 - 4 * 7 = -17; the equation accepts.
    let s = challenge_answer(&Natural::from_u128(4), 11, &x);
    assert_eq!(s, parse_signed(&b"-17".to_vec()).unwrap());
    let c = SignedBig::from_natural(Natural::from_u128(4));
    assert!(verify(&s, &c, &y1, &y2, &r1, &r2, &params));

    // The same attempt through the verifier state machine.
    let mut v = Verifier::new(small_params());
    assert_eq!(v.register(b"peggy".to_vec(), &b"2187".to_vec(), &b"128".to_vec()), Ok(()));
    let (auth_id, ch) = v
        .create_authentication_challenge_with(
            b"peggy".to_vec(),
            &b"6994".to_vec(),
            &b"2048".to_vec(),
            42,
            4,
        )
        .unwrap();
    assert_eq!((auth_id, ch), (42, 4));
    let session = v.verify_authentication(&b"42".to_vec(), &b"-17".to_vec());
    assert!(session.is_ok());
}

#[test]
fn s2_wrong_secret() {
    // Same (y1, y2, r1, r2, c) as the happy path, but s computed with
    // x' = 8: s = 11 - 4 * 8 = -21. Expected: rejection.
    let params = small_params();
    let x = Natural::from_u128(7);
    let (y1, y2) = gen_public(&params, &x);
    let (r1, r2) = gen_random(&params, 11);
    let s = challenge_answer(&Natural::from_u128(4), 11, &Natural::from_u128(8));
    let c = SignedBig::from_natural(Natural::from_u128(4));
    assert!(!verify(&s, &c, &y1, &y2, &r1, &r2, &params));

    let mut v = Verifier::new(small_params());
    v.register(b"peggy".to_vec(), &b"2187".to_vec(), &b"128".to_vec()).unwrap();
    v.create_authentication_challenge_with(
        b"peggy".to_vec(),
        &b"6994".to_vec(),
        &b"2048".to_vec(),
        42,
        4,
    )
    .unwrap();
    assert_eq!(
        v.verify_authentication(&b"42".to_vec(), &b"-21".to_vec()),
        Err(ZkpError::Unauthenticated)
    );
}

#[test]
fn s3_unknown_user() {
    let mut v = Verifier::new(small_params());
    let r = v.create_authentication_challenge(
        b"alice".to_vec(),
        &b"6994".to_vec(),
        &b"2048".to_vec(),
    );
    assert_eq!(r, Err(ZkpError::NotFound));
}

#[test]
fn s4_idempotent_register() {
    let mut v = Verifier::new(small_params());
    assert_eq!(v.register(b"bob".to_vec(), &b"5".to_vec(), &b"9".to_vec()), Ok(()));
    assert_eq!(v.register(b"bob".to_vec(), &b"17".to_vec(), &b"23".to_vec()), Ok(()));

    // The stored record is still (5, 9): with c = 1 and s = 0 the
    // equation recomputes exactly (y1, y2).
    v.create_authentication_challenge_with(
        b"bob".to_vec(),
        &b"5".to_vec(),
        &b"9".to_vec(),
        7,
        1,
    )
    .unwrap();
    assert!(v.verify_authentication(&b"7".to_vec(), &b"0".to_vec()).is_ok());

    // And it is not (17, 23).
    v.create_authentication_challenge_with(
        b"bob".to_vec(),
        &b"17".to_vec(),
        &b"23".to_vec(),
        8,
        1,
    )
    .unwrap();
    assert_eq!(
        v.verify_authentication(&b"8".to_vec(), &b"0".to_vec()),
        Err(ZkpError::Unauthenticated)
    );
}

#[test]
fn s5_stale_verify() {
    // Two challenges for the same user: the later one wins, so a
    // response to the earlier one is rejected.
    let mut v = Verifier::new(small_params());
    v.register(b"carol".to_vec(), &b"2187".to_vec(), &b"128".to_vec()).unwrap();

    // Attempt A: k = 11, c_a = 4.
    v.create_authentication_challenge_with(
        b"carol".to_vec(),
        &b"6994".to_vec(),
        &b"2048".to_vec(),
        1,
        4,
    )
    .unwrap();
    // Attempt B: k = 13 (r1 = 3^13 mod 10009 = 2892, r2 = 2^13 mod
    // 10009 = 8192), c_b = 5.
    v.create_authentication_challenge_with(
        b"carol".to_vec(),
        &b"2892".to_vec(),
        &b"8192".to_vec(),
        2,
        5,
    )
    .unwrap();

    // s_a = 11 - 4 * 7 = -17 answers attempt A; the verifier now holds
    // attempt B's state.
    assert_eq!(
        v.verify_authentication(&b"1".to_vec(), &b"-17".to_vec()),
        Err(ZkpError::Unauthenticated)
    );
    // The honest response to attempt B still passes: s_b = 13 - 5 * 7 = -22.
    assert!(v.verify_authentication(&b"2".to_vec(), &b"-22".to_vec()).is_ok());
}

#[test]
fn happy_path_default_parameters_random_values() {
    // Soundness over the default group: random x, k, c always verify.
    let params = GroupParams::init();
    for _ in 0..3 {
        let x_val = zkp_auth::rng::gen_random_with_n_bits(96);
        let x = Natural::from_u128(x_val);
        let k = zkp_auth::rng::gen_random_with_n_bits(128);
        let c_val = zkp_auth::rng::gen_random_with_n_bits(128);
        let (y1, y2) = gen_public(&params, &x);
        let (r1, r2) = gen_random(&params, k);
        let s = challenge_answer(&Natural::from_u128(c_val), k, &x);
        let c = SignedBig::from_natural(Natural::from_u128(c_val));
        assert!(verify(&s, &c, &y1, &y2, &r1, &r2, &params));
        // A shifted secret is rejected.
        let x2 = Natural::from_u128(x_val + 1);
        let s_bad = challenge_answer(&Natural::from_u128(c_val), k, &x2);
        assert!(!verify(&s_bad, &c, &y1, &y2, &r1, &r2, &params));
    }
}

#[test]
fn freshness_of_commitments() {
    // Two commits draw distinct 128-bit nonces (up to negligible odds).
    let params = GroupParams::init();
    let (k1, r1a, _r2a) = commit(&params);
    let (k2, r1b, _r2b) = commit(&params);
    assert_ne!(k1, k2);
    assert_ne!(r1a, r1b);
}

#[test]
fn malformed_wire_fields() {
    let mut v = Verifier::new(small_params());
    assert_eq!(
        v.register(b"dave".to_vec(), &b"12x".to_vec(), &b"9".to_vec()),
        Err(ZkpError::InvalidArgument)
    );
    assert_eq!(v.register(b"dave".to_vec(), &b"5".to_vec(), &b"9".to_vec()), Ok(()));
    assert_eq!(
        v.create_authentication_challenge(b"dave".to_vec(), &b"".to_vec(), &b"9".to_vec()),
        Err(ZkpError::InvalidArgument)
    );
    assert_eq!(
        v.verify_authentication(&b"nope".to_vec(), &b"1".to_vec()),
        Err(ZkpError::InvalidArgument)
    );
    // Well-formed but unknown auth_id.
    assert_eq!(
        v.verify_authentication(&b"999".to_vec(), &b"1".to_vec()),
        Err(ZkpError::Unauthenticated)
    );
    // An auth_id too wide for 128 bits cannot be in the table.
    assert_eq!(
        v.verify_authentication(
            &b"340282366920938463463374607431768211456".to_vec(),
            &b"1".to_vec()
        ),
        Err(ZkpError::Unauthenticated)
    );
}

#[test]
fn prover_cache_flow() {
    let mut p = Prover::new(GroupParams::init());
    let user = b"alice".to_vec();
    let x = Natural::from_u128(7);
    assert!(!p.is_registered(&user));
    let pair = p.register_begin(&user, &x);
    assert!(pair.is_some());
    p.register_complete(user.clone());
    assert!(p.is_registered(&user));
    // The short-circuit: a second registration is refused locally.
    assert!(p.register_begin(&user, &x).is_none());
    // Login needs a prior registration through this client.
    assert!(p.login_begin(&b"mallory".to_vec()).is_none());
    let attempt = p.login_begin(&user);
    assert!(attempt.is_some());
    let (k, _r1, _r2) = attempt.unwrap();
    let s = p.login_finish(&Natural::from_u128(3), k, &x);
    assert_eq!(s, challenge_answer(&Natural::from_u128(3), k, &x));
}

#[test]
fn http_reply_mapping() {
    let (r, code) = registration_reply("a".to_string(), &ZkpClientRegistrationStatus::Registered);
    assert_eq!((r.user.as_str(), r.status.as_str(), code), ("a", "registered", 201));
    let (r, code) =
        registration_reply("a".to_string(), &ZkpClientRegistrationStatus::AlreadyRegistered);
    assert_eq!((r.status.as_str(), code), ("already registered", 409));

    let (r, code) = authentication_reply(
        "a".to_string(),
        ZkpClientAuthenticationStatus::Authenticated { session_id: "s1".to_string() },
    );
    assert_eq!((r.status.as_str(), r.session_id.as_deref(), code), ("authenticated", Some("s1"), 401));
    let (r, code) = authentication_reply(
        "a".to_string(),
        ZkpClientAuthenticationStatus::NotAuthenticated { status: "denied".to_string() },
    );
    assert_eq!((r.status.as_str(), r.session_id.as_deref(), code), ("denied", None, 200));
    let (r, code) =
        authentication_reply("a".to_string(), ZkpClientAuthenticationStatus::UnregisteredUser);
    assert_eq!((r.status.as_str(), r.session_id.as_deref(), code), ("unregistered user", None, 404));
}
