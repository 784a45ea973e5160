//! Parsing a decimal line-number token.
//!
//! A token is a valid numeral when, after an optional leading plus sign, it
//! consists of one or more ASCII digits and its value fits in `usize` — the
//! same inputs that `usize`'s standard decimal parser accepts.

use vstd::prelude::*;

verus! {

pub const PLUS: u8 = 43;
pub const DIGIT_ZERO: u8 = 48;
pub const DIGIT_NINE: u8 = 57;

pub open spec fn is_ascii_digit(b: u8) -> bool {
    DIGIT_ZERO <= b <= DIGIT_NINE
}

pub open spec fn digit_value(b: u8) -> nat {
    (b - DIGIT_ZERO) as nat
}

pub open spec fn all_digits(s: Seq<u8>) -> bool {
    forall|i: int| 0 <= i < s.len() ==> is_ascii_digit(#[trigger] s[i])
}

/// Value of a digit string read in base 10.
pub open spec fn digits_value(s: Seq<u8>) -> nat
    decreases s.len(),
{
    if s.len() == 0 {
        0
    } else {
        digits_value(s.drop_last()) * 10 + digit_value(s.last())
    }
}

/// The digits of a numeral token: the token with one leading plus sign
/// removed, if present.
pub open spec fn numeral_digits(s: Seq<u8>) -> Seq<u8> {
    if s.len() > 0 && s[0] == PLUS {
        s.skip(1)
    } else {
        s
    }
}

/// The value a numeral token denotes, if it is a valid numeral whose value
/// fits in `usize`.
pub open spec fn spec_parse_usize(s: Seq<u8>) -> Option<usize> {
    let d = numeral_digits(s);
    if d.len() > 0 && all_digits(d) && digits_value(d) <= usize::MAX as nat {
        Some(digits_value(d) as usize)
    } else {
        None
    }
}

/// The value of a digit string is at least the value of any of its prefixes.
pub proof fn lemma_digits_value_prefix(s: Seq<u8>, i: int)
    requires
        0 <= i <= s.len(),
    ensures
        digits_value(s.take(i)) <= digits_value(s),
    decreases s.len() - i,
{
    if i < s.len() {
        assert(s.take(i + 1).drop_last() =~= s.take(i));
        assert(s.take(i + 1).last() == s[i]);
        let p = digits_value(s.take(i));
        assert(p <= p * 10) by (nonlinear_arith);
        assert(digits_value(s.take(i + 1)) == p * 10 + digit_value(s[i]));
        lemma_digits_value_prefix(s, i + 1);
        assert(s.take(s.len() as int) =~= s);
    } else {
        assert(s.take(i) =~= s);
    }
}

/// Parses a decimal `usize` token: an optional plus sign followed by one or
/// more ASCII digits whose value fits in `usize`.
pub fn parse_usize(token: &Vec<u8>) -> (r: Option<usize>)
    ensures
        r == spec_parse_usize(token@),
{
    let start: usize = if token.len() > 0 && token[0] == PLUS {
        1
    } else {
        0
    };
    let ghost d: Seq<u8> = numeral_digits(token@);
    proof {
        assert(d =~= token@.skip(start as int));
    }
    if start == token.len() {
        return None;
    }
    let mut acc: usize = 0;
    let mut i: usize = start;
    while i < token.len()
        invariant
            start <= i <= token@.len(),
            d == numeral_digits(token@),
            d == token@.skip(start as int),
            all_digits(d.take(i - start)),
            acc == digits_value(d.take(i - start)),
        decreases token@.len() - i,
    {
        let b = token[i];
        proof {
            assert(d[i - start] == token@[i as int]);
        }
        if b < DIGIT_ZERO || b > DIGIT_NINE {
            return None;
        }
        let digit = (b - DIGIT_ZERO) as usize;
        proof {
            assert(d.take(i - start + 1).drop_last() =~= d.take(i - start));
            assert(d.take(i - start + 1).last() == d[i - start]);
        }
        if acc > (usize::MAX - digit) / 10 {
            proof {
                let p = digits_value(d.take(i - start));
                assert(p * 10 + digit_value(b) > usize::MAX as nat) by (nonlinear_arith)
                    requires
                        p > (usize::MAX - digit) / 10,
                        digit == digit_value(b),
                        digit <= 9,
                ;
                lemma_digits_value_prefix(d, i - start + 1);
            }
            return None;
        }
        proof {
            let p = digits_value(d.take(i - start));
            assert(p * 10 + digit <= usize::MAX) by (nonlinear_arith)
                requires
                    p <= (usize::MAX - digit) / 10,
                    digit <= 9,
            ;
        }
        acc = acc * 10 + digit;
        i += 1;
    }
    proof {
        assert(d.take(i - start) =~= d);
    }
    Some(acc)
}

} // verus!
