//! The wire encoding of big integers: base-10 ASCII strings.
//!
//! Every numeric field of the protocol crosses the wire as a decimal
//! string. Parsing is strict: a field is a non-empty run of ASCII digits,
//! with a single leading `-` allowed where a signed value is expected.

use vstd::prelude::*;
use vstd::arithmetic::power::pow;
use crate::natural::Natural;
use crate::signed::SignedBig;

verus! {

/// An ASCII decimal digit.
pub open spec fn is_digit(b: u8) -> bool {
    0x30 <= b <= 0x39
}

/// A non-empty run of ASCII digits.
pub open spec fn is_dec(s: Seq<u8>) -> bool {
    s.len() > 0 && forall|i: int| 0 <= i < s.len() ==> is_digit(#[trigger] s[i])
}

/// The value of a digit string, most significant digit first.
pub open spec fn dec_val(s: Seq<u8>) -> nat
    decreases s.len(),
{
    if s.len() == 0 {
        0
    } else {
        dec_val(s.drop_last()) * 10 + (s.last() - 0x30) as nat
    }
}

/// A decimal string with an optional leading minus sign.
pub open spec fn is_signed_dec(s: Seq<u8>) -> bool {
    if s.len() > 0 && s[0] == 0x2d {
        is_dec(s.drop_first())
    } else {
        is_dec(s)
    }
}

/// The value of a signed decimal string.
pub open spec fn signed_dec_val(s: Seq<u8>) -> int {
    if s.len() > 0 && s[0] == 0x2d {
        -(dec_val(s.drop_first()) as int)
    } else {
        dec_val(s) as int
    }
}

/// Prepending a digit adds its value scaled by the weight of its position.
proof fn lemma_dec_val_cons(c: u8, s: Seq<u8>)
    ensures
        dec_val(seq![c] + s) == ((c - 0x30) as nat) * pow(10, s.len()) + dec_val(s),
    decreases s.len(),
{
    let d = (c - 0x30) as nat;
    if s.len() == 0 {
        reveal(pow);
        assert(seq![c] + s =~= seq![c]);
        assert(seq![c].drop_last() =~= Seq::<u8>::empty());
        assert(dec_val(seq![c]) == dec_val(Seq::<u8>::empty()) * 10 + d);
        assert(d * pow(10, 0) == d) by (nonlinear_arith)
            requires
                pow(10, 0) == 1,
        ;
    } else {
        let t = s.drop_last();
        let w = pow(10, t.len());
        assert((seq![c] + s).drop_last() =~= seq![c] + t);
        assert((seq![c] + s).last() == s.last());
        lemma_dec_val_cons(c, t);
        assert(dec_val(seq![c] + s) == dec_val(seq![c] + t) * 10 + (s.last() - 0x30) as nat);
        assert(pow(10, s.len()) == w * 10) by {
            vstd::arithmetic::power::lemma_pow1(10);
            vstd::arithmetic::power::lemma_pow_adds(10, t.len(), 1);
        }
        assert((d * w + dec_val(t)) * 10 == d * (w * 10) + dec_val(t) * 10) by (nonlinear_arith);
    }
}

/// Parse the digits of `s` from position `start` on as a natural number.
fn parse_digits(s: &Vec<u8>, start: usize) -> (r: Option<Natural>)
    requires
        start <= s@.len(),
    ensures
        r is Some <==> is_dec(s@.skip(start as int)),
        r is Some ==> r.unwrap().wf() && r.unwrap()@ == dec_val(s@.skip(start as int)),
{
    if s.len() == start {
        return None;
    }
    let ten = Natural::from_u128(10);
    let mut acc = Natural::from_u128(0);
    let mut i: usize = start;
    proof {
        assert(s@.skip(start as int).take(0) =~= Seq::<u8>::empty());
    }
    while i < s.len()
        invariant
            start <= i <= s@.len(),
            ten@ == 10,
            acc.wf(),
            acc@ == dec_val(s@.skip(start as int).take(i - start)),
            forall|j: int| start <= j < i ==> is_digit(#[trigger] s@[j]),
        decreases s@.len() - i,
    {
        let b = s[i];
        if b < 0x30 || b > 0x39 {
            proof {
                assert(s@.skip(start as int)[i - start] == s@[i as int]);
            }
            return None;
        }
        let d = Natural::from_u128((b - 0x30) as u128);
        proof {
            let whole = s@.skip(start as int);
            let pre = whole.take(i - start);
            let cur = whole.take(i + 1 - start);
            assert(cur.drop_last() =~= pre);
            assert(cur.last() == s@[i as int]);
            assert(dec_val(cur) == acc@ * 10 + (b - 0x30) as nat);
        }
        acc = acc.mul(&ten).add(&d);
        i = i + 1;
    }
    proof {
        assert(s@.skip(start as int).take(s@.len() - start) =~= s@.skip(start as int));
        assert forall|j: int| 0 <= j < s@.skip(start as int).len() implies is_digit(
            #[trigger] s@.skip(start as int)[j],
        ) by {
            assert(s@.skip(start as int)[j] == s@[j + start]);
        }
    }
    Some(acc)
}

/// Parse a strict decimal string: a non-empty run of ASCII digits.
pub fn parse_natural(s: &Vec<u8>) -> (r: Option<Natural>)
    ensures
        r is Some <==> is_dec(s@),
        r is Some ==> r.unwrap().wf() && r.unwrap()@ == dec_val(s@),
    {
    proof {
        assert(s@.skip(0) =~= s@);
    }
    parse_digits(s, 0)
}

/// Parse a strict decimal string with an optional leading minus sign.
pub fn parse_signed(s: &Vec<u8>) -> (r: Option<SignedBig>)
    ensures
        r is Some <==> is_signed_dec(s@),
        r is Some ==> r.unwrap().wf() && r.unwrap()@ == signed_dec_val(s@),
{
    if s.len() > 0 && s[0] == 0x2d {
        proof {
            assert(s@.skip(1) =~= s@.drop_first());
        }
        match parse_digits(s, 1) {
            None => None,
            Some(n) => Some(SignedBig::from_natural(n).neg()),
        }
    } else {
        proof {
            assert(s@.skip(0) =~= s@);
        }
        match parse_digits(s, 0) {
            None => None,
            Some(n) => Some(SignedBig::from_natural(n)),
        }
    }
}

/// Render a natural number as a decimal string: non-empty, no leading
/// zero except for the value zero itself.
pub fn to_decimal(n: &Natural) -> (r: Vec<u8>)
    requires
        n.wf(),
    ensures
        is_dec(r@),
        dec_val(r@) == n@,
        r@.len() == 1 || r@[0] != 0x30,
{
    if n.is_zero() {
        let mut out: Vec<u8> = Vec::new();
        out.push(0x30);
        proof {
            assert(out@.drop_last() =~= Seq::<u8>::empty());
            assert(dec_val(out@.drop_last()) == 0);
            assert(dec_val(out@) == 0);
        }
        return out;
    }
    let ten = Natural::from_u128(10);
    let mut digits: Vec<u8> = Vec::new();
    let mut cur = n.clone_value();
    proof {
        reveal(pow);
        assert(n@ == cur@ * pow(10, digits@.len()) + dec_val(digits@)) by (nonlinear_arith)
            requires
                cur@ == n@,
                pow(10, digits@.len()) == 1,
                dec_val(digits@) == 0,
                digits@.len() == 0,
        ;
    }
    while !cur.is_zero()
        invariant
            ten@ == 10,
            cur.wf(),
            n@ == cur@ * pow(10, digits@.len()) + dec_val(digits@),
            forall|j: int| 0 <= j < digits@.len() ==> is_digit(#[trigger] digits@[j]),
            digits@.len() > 0 ==> (cur@ > 0 || digits@[0] != 0x30),
            cur@ == 0 ==> digits@.len() > 0,
        decreases cur@,
    {
        let (q, rem) = cur.div_rem(&ten);
        proof {
            vstd::arithmetic::div_mod::lemma_mod_bound(cur@ as int, 10);
            vstd::arithmetic::power2::lemma2_to64();
        }
        let d_opt = rem.to_u128();
        proof {
            if d_opt is None {
                vstd::arithmetic::power2::lemma_pow2_strictly_increases(4, 128);
                assert(false);
            }
        }
        let d = match d_opt {
            Some(v) => v as u8,
            None => 0,  // unreachable: the remainder is below 10
        };
        proof {
            vstd::arithmetic::div_mod::lemma_fundamental_div_mod(cur@ as int, 10);
            vstd::arithmetic::div_mod::lemma_div_is_strictly_smaller(cur@ as int, 10);
            lemma_dec_val_cons((0x30 + d) as u8, digits@);
            // n == (10 q + d) * 10^len + dec == q * 10^(len+1) + (d * 10^len + dec).
            assert(cur@ * pow(10, digits@.len()) == q@ * (pow(10, digits@.len()) * 10) + (
            d as nat) * pow(10, digits@.len())) by (nonlinear_arith)
                requires
                    cur@ == q@ * 10 + d,
            ;
            assert(pow(10, digits@.len()) * 10 == pow(10, digits@.len() + 1)) by {
                vstd::arithmetic::power::lemma_pow1(10);
                vstd::arithmetic::power::lemma_pow_adds(10, digits@.len(), 1);
            }
        }
        let ghost pre = digits@;
        digits.insert(0, 0x30 + d);
        proof {
            assert(digits@ =~= seq![(0x30 + d) as u8] + pre);
        }
        cur = q;
    }
    proof {
        assert(n@ == dec_val(digits@)) by (nonlinear_arith)
            requires
                n@ == cur@ * pow(10, digits@.len()) + dec_val(digits@),
                cur@ == 0,
        ;
    }
    digits
}

} // verus!
