//! Decimal integers: which tokens denote an integer, which one, and the
//! parsers that compute it.

use vstd::prelude::*;
use vstd::slice::slice_subrange;

verus! {

/// The ASCII digits `0` to `9`.
pub open spec fn is_digit(b: u8) -> bool {
    0x30 <= b <= 0x39
}

/// Every byte of `s` is a digit.
pub open spec fn all_digits(s: Seq<u8>) -> bool {
    forall|i: int| 0 <= i < s.len() ==> is_digit(#[trigger] s[i])
}

/// The number that the digits `s` denote in base ten; zero for no digits.
pub open spec fn decimal(s: Seq<u8>) -> int
    decreases s.len(),
{
    if s.len() == 0 {
        0
    } else {
        10 * decimal(s.drop_last()) + (s.last() - 0x30)
    }
}

/// The magnitude that `s` denotes: `Some` exactly when `s` is one digit or
/// more and nothing else.
pub open spec fn magnitude(s: Seq<u8>) -> Option<int> {
    if s.len() > 0 && all_digits(s) {
        Some(decimal(s))
    } else {
        None
    }
}

/// The value of a token read as an unsigned integer: digits, with `+`
/// allowed in front of them. A token with `-` in front denotes nothing,
/// not even `-0`.
pub open spec fn unsigned_value(token: Seq<u8>) -> Option<int> {
    if token.len() > 0 && token[0] == 0x2b {
        magnitude(token.skip(1))
    } else {
        magnitude(token)
    }
}

/// The value of a token read as a signed integer: digits, with `+` or `-`
/// allowed in front of them.
pub open spec fn signed_value(token: Seq<u8>) -> Option<int> {
    if token.len() > 0 && token[0] == 0x2d {
        match magnitude(token.skip(1)) {
            Some(m) => Some(-m),
            None => None,
        }
    } else {
        unsigned_value(token)
    }
}

/// `value` if it is there and lies between `min` and `max`, otherwise nothing.
pub open spec fn within(value: Option<int>, min: int, max: int) -> Option<int> {
    match value {
        Some(v) if min <= v <= max => Some(v),
        _ => None,
    }
}

/// Digits denote a number that is not negative.
pub proof fn lemma_decimal_nonnegative(s: Seq<u8>)
    requires
        all_digits(s),
    ensures
        0 <= decimal(s),
    decreases s.len(),
{
    if s.len() > 0 {
        lemma_decimal_nonnegative(s.drop_last());
    }
}

/// The first `k` digits of a number denote no more than all of them.
pub proof fn lemma_decimal_prefix(s: Seq<u8>, k: int)
    requires
        all_digits(s),
        0 <= k <= s.len(),
    ensures
        0 <= decimal(s.take(k)) <= decimal(s),
    decreases s.len(),
{
    if k == s.len() {
        assert(s.take(k) =~= s);
        lemma_decimal_nonnegative(s);
    } else {
        let t = s.drop_last();
        lemma_decimal_prefix(t, k);
        assert(t.take(k) =~= s.take(k));
    }
}

/// The digits that write `n` in base ten, without leading zeros.
pub open spec fn digits_of(n: nat) -> Seq<u8>
    decreases n,
{
    if n < 10 {
        seq![(0x30 + n) as u8]
    } else {
        digits_of(n / 10).push((0x30 + n % 10) as u8)
    }
}

/// Reading is the inverse of writing: the digits that write a number are
/// digits, at least one, and denote that number.
pub proof fn lemma_decimal_of_digits(n: nat)
    ensures
        magnitude(digits_of(n)) == Some(n as int),
        unsigned_value(digits_of(n)) == Some(n as int),
        signed_value(digits_of(n)) == Some(n as int),
        signed_value(seq![0x2du8] + digits_of(n)) == Some(-(n as int)),
    decreases n,
{
    let s = digits_of(n);
    if n < 10 {
        assert(s.drop_last() =~= Seq::<u8>::empty());
        assert(decimal(s.drop_last()) == 0);
    } else {
        let head = digits_of(n / 10);
        lemma_decimal_of_digits(n / 10);
        assert(s.drop_last() =~= head);
        assert forall|i: int| 0 <= i < s.len() implies is_digit(#[trigger] s[i]) by {
            if i < head.len() {
                assert(s[i] == head[i]);
            }
        }
    }
    assert(is_digit(s[0]));
    assert((seq![0x2du8] + s).skip(1) =~= s);
}

/// A magnitude is never negative.
pub proof fn lemma_magnitude_nonnegative(s: Seq<u8>)
    ensures
        magnitude(s) matches Some(m) ==> 0 <= m,
{
    if all_digits(s) {
        lemma_decimal_nonnegative(s);
    }
}

/// Tells whether `b` is an ASCII digit.
pub fn byte_is_digit(b: u8) -> (r: bool)
    ensures
        r == is_digit(b),
{
    0x30 <= b && b <= 0x39
}

/// Reads `digits` as a magnitude of at most `limit`.
///
/// The result is the number that `digits` denotes if `digits` is one digit
/// or more, nothing else, and that number does not exceed `limit`; otherwise
/// it is `None`. Leading zeros are allowed, however many.
pub fn parse_magnitude(digits: &[u8], limit: u128) -> (r: Option<u128>)
    ensures
        match within(magnitude(digits@), 0, limit as int) {
            Some(v) => r == Some(v as u128),
            None => r is None,
        },
{
    let n = digits.len();
    if n == 0 {
        return None;
    }
    let mut acc: u128 = 0;
    let mut i: usize = 0;
    while i < n
        invariant
            n == digits.len(),
            0 <= i <= n,
            all_digits(digits@.take(i as int)),
            acc == decimal(digits@.take(i as int)),
            acc <= limit,
        decreases n - i,
    {
        let b = digits[i];
        if !byte_is_digit(b) {
            return None;
        }
        let ghost before = digits@.take(i as int);
        let ghost after = digits@.take(i as int + 1);
        proof {
            assert(after.drop_last() =~= before);
            if all_digits(digits@) {
                lemma_decimal_prefix(digits@, i as int + 1);
            }
        }
        let d: u128 = (b - 0x30) as u128;
        let next = match acc.checked_mul(10) {
            Some(tenfold) => tenfold.checked_add(d),
            None => None,
        };
        match next {
            Some(v) if v <= limit => {
                acc = v;
            },
            _ => {
                return None;
            },
        }
        i = i + 1;
    }
    proof {
        assert(digits@.take(n as int) =~= digits@);
    }
    Some(acc)
}

/// Reads `token` as an unsigned integer of at most `max`.
///
/// The result is the value of the token if it has one as an unsigned
/// integer and that value does not exceed `max`; otherwise it is `None`.
pub fn parse_unsigned(token: &[u8], max: u128) -> (r: Option<u128>)
    ensures
        match within(unsigned_value(token@), 0, max as int) {
            Some(v) => r == Some(v as u128),
            None => r is None,
        },
{
    if token.len() > 0 && token[0] == 0x2b {
        parse_magnitude(slice_subrange(token, 1, token.len()), max)
    } else {
        parse_magnitude(token, max)
    }
}

/// Reads `token` as a signed integer between `min` and `max`.
///
/// The result is the value of the token if it has one as a signed integer
/// and that value lies between `min` and `max`, both included; otherwise it
/// is `None`.
pub fn parse_signed(token: &[u8], min: i128, max: i128) -> (r: Option<i128>)
    ensures
        match within(signed_value(token@), min as int, max as int) {
            Some(v) => r == Some(v as i128),
            None => r is None,
        },
{
    proof {
        lemma_magnitude_nonnegative(token@);
        lemma_magnitude_nonnegative(token@.skip(1));
    }
    let value: Option<i128> = if token.len() > 0 && token[0] == 0x2d {
        let digits = slice_subrange(token, 1, token.len());
        match parse_magnitude(digits, 0x8000_0000_0000_0000_0000_0000_0000_0000u128) {
            Some(m) => {
                if m == 0x8000_0000_0000_0000_0000_0000_0000_0000u128 {
                    Some(i128::MIN)
                } else {
                    Some(-(m as i128))
                }
            },
            None => None,
        }
    } else {
        match parse_unsigned(token, i128::MAX as u128) {
            Some(m) => Some(m as i128),
            None => None,
        }
    };
    match value {
        Some(v) if min <= v && v <= max => Some(v),
        _ => None,
    }
}

} // verus!
