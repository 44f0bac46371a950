//! Big-number arithmetic, the wire codec, and the modular inverse.

use zkp_auth::codec::{parse_natural, parse_signed, to_decimal};
use zkp_auth::group::GroupParams;
use zkp_auth::modular::{modinv, modpow_signed, mul_mod};
use zkp_auth::natural::Natural;
use zkp_auth::signed::SignedBig;

fn dec(n: &Natural) -> String {
    String::from_utf8(to_decimal(n)).unwrap()
}

fn natural_of(text: &str) -> Natural {
    parse_natural(&text.as_bytes().to_vec()).unwrap()
}

#[test]
fn u128_round_trip() {
    for v in [0u128, 1, 9, 10, 4294967295, 4294967296, u128::MAX] {
        let n = Natural::from_u128(v);
        assert_eq!(n.to_u128(), Some(v));
    }
}

#[test]
fn decimal_round_trip() {
    for text in ["0", "1", "42", "10009", "340282366920938463463374607431768211456"] {
        assert_eq!(dec(&natural_of(text)), text);
    }
    // Leading zeros parse but do not reappear.
    assert_eq!(dec(&natural_of("007")), "7");
}

#[test]
fn parsing_is_strict() {
    let bad = ["", "12a3", "+5", " 5", "5 ", "-5", "0x10"];
    for text in bad {
        assert!(parse_natural(&text.as_bytes().to_vec()).is_none(), "{text:?}");
    }
    assert!(parse_signed(&b"-5".to_vec()).is_some());
    assert!(parse_signed(&b"--5".to_vec()).is_none());
    assert!(parse_signed(&b"-".to_vec()).is_none());
    assert!(parse_signed(&b"5-".to_vec()).is_none());
}

#[test]
fn signed_parse_values() {
    let params = GroupParams::new(
        Natural::from_u128(10009),
        Natural::from_u128(3),
        Natural::from_u128(2),
    )
    .unwrap();
    // -17 mod 10009 == 9992, via g^s for s == -17 against g^17's inverse.
    let s = parse_signed(&b"-17".to_vec()).unwrap();
    let pos = parse_signed(&b"17".to_vec()).unwrap();
    let a = modpow_signed(params.get_g(), &s, params.get_p()).unwrap();
    let b = modpow_signed(params.get_g(), &pos, params.get_p()).unwrap();
    assert_eq!(dec(&mul_mod(&a, &b, params.get_p())), "1");
}

#[test]
fn modinv_small_prime() {
    // inv(7) mod 10009, checked by multiplying back.
    let p = Natural::from_u128(10009);
    let a = Natural::from_u128(7);
    let inv = modinv(&a, &p).unwrap();
    assert_eq!(dec(&mul_mod(&inv, &a, &p)), "1");
}

#[test]
fn modinv_shared_factor_is_none() {
    let m = Natural::from_u128(8);
    assert!(modinv(&Natural::from_u128(4), &m).is_none());
    assert!(modinv(&Natural::from_u128(0), &m).is_none());
    assert!(modinv(&Natural::from_u128(3), &m).is_some());
}

#[test]
fn modinv_of_two_under_default_parameters() {
    // S6: under p = 2^255 - 19, modinv(2, p) * 2 mod p == 1.
    let params = GroupParams::init();
    let two = Natural::from_u128(2);
    let inv = modinv(&two, params.get_p()).unwrap();
    assert_eq!(dec(&mul_mod(&inv, &two, params.get_p())), "1");
}

#[test]
fn signed_round_trip_default_parameters() {
    // g^s * g^(-s) mod p == 1 for s of both signs.
    let params = GroupParams::init();
    for text in ["17", "-17", "340282366920938463463374607431768211455"] {
        let s = parse_signed(&text.as_bytes().to_vec()).unwrap();
        let minus_s = s.neg();
        let a = modpow_signed(params.get_g(), &s, params.get_p()).unwrap();
        let b = modpow_signed(params.get_g(), &minus_s, params.get_p()).unwrap();
        assert_eq!(dec(&mul_mod(&a, &b, params.get_p())), "1");
    }
}

#[test]
fn challenge_answer_values() {
    // s = k - c * x, signed and unreduced: 11 - 4 * 7 == -17.
    let s = zkp_auth::prover::challenge_answer(&Natural::from_u128(4), 11, &Natural::from_u128(7));
    assert_eq!(s, parse_signed(&b"-17".to_vec()).unwrap());
    // 100 - 4 * 7 == 72.
    let s2 = zkp_auth::prover::challenge_answer(
        &Natural::from_u128(4),
        100,
        &Natural::from_u128(7),
    );
    assert_eq!(s2, parse_signed(&b"72".to_vec()).unwrap());
}

#[test]
fn subtraction_and_negation() {
    let a = SignedBig::sub_naturals(&Natural::from_u128(3), &Natural::from_u128(10));
    assert_eq!(a, parse_signed(&b"-7".to_vec()).unwrap());
    assert_eq!(a.neg(), parse_signed(&b"7".to_vec()).unwrap());
    // Negative zero normalises to zero.
    let z = SignedBig::sub_naturals(&Natural::from_u128(5), &Natural::from_u128(5));
    assert_eq!(z, parse_signed(&b"-0".to_vec()).unwrap());
}
