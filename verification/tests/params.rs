//! The default group parameters.

use zkp_auth::codec::to_decimal;
use zkp_auth::group::GroupParams;

fn dec(n: &zkp_auth::natural::Natural) -> String {
    String::from_utf8(to_decimal(n)).unwrap()
}

#[test]
fn test_init() {
    let params = GroupParams::init();

    let expected_p = num_bigint::BigInt::from(2u32).pow(255) - num_bigint::BigInt::from(19u32);
    assert_eq!(dec(params.get_p()), expected_p.to_string());
    assert_eq!(dec(params.get_g()), num_bigint::BigInt::from(5u32).to_string());
    assert_eq!(dec(params.get_h()), num_bigint::BigInt::from(3u32).to_string());
}

#[test]
fn default_params_are_well_formed() {
    let params = GroupParams::init();
    // p is odd.
    let p_text = dec(params.get_p());
    let last = p_text.as_bytes()[p_text.len() - 1] - b'0';
    assert_eq!(last % 2, 1);
}

#[test]
fn group_params_new_checks_shape() {
    let n = |v: u128| zkp_auth::natural::Natural::from_u128(v);
    assert!(GroupParams::new(n(10009), n(3), n(2)).is_some());
    // An even modulus is refused.
    assert!(GroupParams::new(n(10), n(3), n(2)).is_none());
    // A generator of 0 is refused.
    assert!(GroupParams::new(n(10009), n(0), n(2)).is_none());
    // A generator at or above p is refused.
    assert!(GroupParams::new(n(10009), n(10009), n(2)).is_none());
    // A modulus below 3 is refused.
    assert!(GroupParams::new(n(1), n(1), n(1)).is_none());
}
