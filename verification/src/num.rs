//! Decimal text: formatting and parsing of 64-bit integers, written and
//! verified here, and the byte-level grammar of arbitrary-precision decimal
//! literals as the big-number parser accepts them.

use vstd::prelude::*;
use crate::bytes::is_digit;
use crate::bytes::digit_val;

verus! {

/// Decimal digits of `n`, most significant first.
pub open spec fn dec_digits(n: nat) -> Seq<u8>
    decreases n,
{
    if n < 10 {
        seq![(48 + n) as u8]
    } else {
        dec_digits(n / 10) + seq![(48 + n % 10) as u8]
    }
}

/// Wire form of a signed 64-bit integer: a minus sign on negatives, then digits.
pub open spec fn dec_i64(i: i64) -> Seq<u8> {
    if i < 0 {
        seq![45u8] + dec_digits((-(i as int)) as nat)
    } else {
        dec_digits(i as nat)
    }
}

/// At least one byte, all decimal digits.
pub open spec fn all_digits(s: Seq<u8>) -> bool {
    s.len() > 0 && forall|i: int| 0 <= i < s.len() ==> is_digit(#[trigger] s[i])
}

/// Numeric value of a digit string, most significant first.
pub open spec fn digits_val(s: Seq<u8>) -> int
    decreases s.len(),
{
    if s.len() == 0 {
        0
    } else {
        digits_val(s.drop_last()) * 10 + digit_val(s.last())
    }
}

/// The sign-stripped body of a decimal literal: one optional leading sign.
pub open spec fn strip_sign(s: Seq<u8>, minus: bool) -> Seq<u8> {
    if s.len() > 0 && (s[0] == 43 || (minus && s[0] == 45)) {
        s.drop_first()
    } else {
        s
    }
}

/// An unsigned decimal literal as `u64` parsing accepts it: an optional plus
/// sign, then digits, with the value in range.
pub open spec fn u64_literal(s: Seq<u8>) -> bool {
    all_digits(strip_sign(s, false)) && digits_val(strip_sign(s, false)) <= u64::MAX
}

/// Value of an unsigned decimal literal.
pub open spec fn u64_literal_val(s: Seq<u8>) -> int {
    digits_val(strip_sign(s, false))
}

/// A signed decimal literal as `i64` parsing accepts it: an optional sign,
/// then digits, with the value in range.
pub open spec fn i64_literal(s: Seq<u8>) -> bool {
    let neg = s.len() > 0 && s[0] == 45;
    let t = strip_sign(s, true);
    all_digits(t) && if neg {
        digits_val(t) <= 0x8000_0000_0000_0000
    } else {
        digits_val(t) <= i64::MAX
    }
}

/// Value of a signed decimal literal.
pub open spec fn i64_literal_val(s: Seq<u8>) -> int {
    let neg = s.len() > 0 && s[0] == 45;
    let t = strip_sign(s, true);
    if neg {
        -digits_val(t)
    } else {
        digits_val(t)
    }
}

/// A digit string's value is never negative.
pub proof fn lemma_digits_val_nonneg(s: Seq<u8>)
    requires
        forall|i: int| 0 <= i < s.len() ==> is_digit(#[trigger] s[i]),
    ensures
        digits_val(s) >= 0,
    decreases s.len(),
{
    if s.len() > 0 {
        lemma_digits_val_nonneg(s.drop_last());
    }
}

/// A digit string's value only grows as digits are appended.
pub proof fn lemma_digits_val_prefix(s: Seq<u8>, i: int)
    requires
        forall|j: int| 0 <= j < s.len() ==> is_digit(#[trigger] s[j]),
        0 <= i <= s.len(),
    ensures
        digits_val(s.take(i)) <= digits_val(s),
    decreases s.len() - i,
{
    if i < s.len() {
        lemma_digits_val_prefix(s, i + 1);
        let t = s.take(i + 1);
        assert(t.drop_last() =~= s.take(i));
        lemma_digits_val_nonneg(s.take(i));
        assert(digits_val(s.take(i)) <= digits_val(t));
    } else {
        assert(s.take(i) =~= s);
    }
}

/// The digits of `n` are digits.
pub proof fn lemma_dec_digits_are_digits(n: nat)
    ensures
        all_digits(dec_digits(n)),
    decreases n,
{
    if n >= 10 {
        lemma_dec_digits_are_digits(n / 10);
    }
}

/// Reading the digits of `n` back gives `n`.
pub proof fn lemma_dec_digits_val(n: nat)
    ensures
        digits_val(dec_digits(n)) == n,
    decreases n,
{
    if n < 10 {
        let s = dec_digits(n);
        assert(s =~= seq![(48 + n) as u8]);
        assert(s.drop_last() =~= Seq::<u8>::empty());
        assert(s.last() == (48 + n) as u8 == 48 + n);
        assert(digits_val(s) == digits_val(s.drop_last()) * 10 + digit_val(s.last()));
        assert(digits_val(s.drop_last()) == 0);
        assert(digits_val(s) == n);
    } else {
        lemma_dec_digits_val(n / 10);
        let s = dec_digits(n);
        assert(s.drop_last() =~= dec_digits(n / 10));
        assert(s.last() == (48 + n % 10) as u8 == 48 + n % 10);
        assert(digits_val(s) == (n / 10) * 10 + n % 10);
        assert(n == (n / 10) * 10 + n % 10);
        assert(digits_val(s) == n);
    }
}

/// The digits of `n` start with a zero only for `n == 0`.
pub proof fn lemma_dec_digits_leading(n: nat)
    ensures
        dec_digits(n).len() > 0,
        n > 0 ==> dec_digits(n)[0] != 48,
    decreases n,
{
    if n >= 10 {
        lemma_dec_digits_leading(n / 10);
        assert(dec_digits(n)[0] == dec_digits(n / 10)[0]);
    }
}

/// Append the decimal digits of `n` to `out`.
pub fn push_dec_u64(n: u64, out: &mut Vec<u8>)
    ensures
        final(out)@ == old(out)@ + dec_digits(n as nat),
    decreases n,
{
    if n < 10 {
        out.push(48 + (n as u8));
        assert(out@ =~= old(out)@ + dec_digits(n as nat));
    } else {
        let ghost mid = out@ + dec_digits((n / 10) as nat);
        push_dec_u64(n / 10, out);
        out.push(48 + ((n % 10) as u8));
        assert(out@ =~= old(out)@ + dec_digits(n as nat));
    }
}

/// Append the wire form of `i` to `out`.
pub fn push_dec_i64(i: i64, out: &mut Vec<u8>)
    ensures
        final(out)@ == old(out)@ + dec_i64(i),
{
    if i < 0 {
        out.push(45);
        let m: u64 = if i == i64::MIN {
            9223372036854775808u64
        } else {
            (-i) as u64
        };
        assert(m == -(i as int));
        push_dec_u64(m, out);
        assert(out@ =~= old(out)@ + dec_i64(i));
    } else {
        push_dec_u64(i as u64, out);
    }
}

/// Parse an unsigned decimal literal, as `u64::from_str` would.
pub fn parse_u64(s: &[u8]) -> (r: Option<u64>)
    ensures
        match r {
            Option::Some(n) => u64_literal(s@) && n == u64_literal_val(s@),
            Option::None => !u64_literal(s@),
        },
{
    let n = s.len();
    let mut i: usize = 0;
    if n > 0 && s[0] == 43 {
        i = 1;
    }
    let ghost t = strip_sign(s@, false);
    proof {
        assert(t =~= s@.skip(i as int));
    }
    if i == n {
        return Option::None;
    }
    let start = i;
    let mut acc: u64 = 0;
    while i < n
        invariant
            start <= i <= n,
            n == s@.len(),
            start < n,
            start <= 1,
            t == s@.skip(start as int),
            t == strip_sign(s@, false),
            forall|j: int| start <= j < i ==> is_digit(#[trigger] s@[j]),
            acc == digits_val(s@.subrange(start as int, i as int)),
        decreases n - i,
    {
        let b = s[i];
        if b < 48 || b > 57 {
            proof {
                assert(t[i - start] == s@[i as int]);
                assert(!is_digit(t[i - start]));
                assert(!all_digits(t));
            }
            return Option::None;
        }
        let d = b - 48;
        let ghost pre = s@.subrange(start as int, i as int);
        let ghost cur = s@.subrange(start as int, i + 1);
        assert(cur.drop_last() =~= pre && cur.last() == b);
        match acc.checked_mul(10) {
            Option::Some(x) => {
                match x.checked_add(d as u64) {
                    Option::Some(y) => {
                        acc = y;
                    },
                    Option::None => {
                        proof {
                            assert(digits_val(cur) > u64::MAX);
                            if all_digits(t) {
                                lemma_digits_val_prefix(t, i + 1 - start);
                                assert(t.take(i + 1 - start) =~= cur);
                                assert(digits_val(t) >= digits_val(cur));
                            }
                        }
                        return Option::None;
                    },
                }
            },
            Option::None => {
                proof {
                    lemma_digits_val_nonneg(pre);
                    assert(digits_val(cur) > u64::MAX);
                    if all_digits(t) {
                        lemma_digits_val_prefix(t, i + 1 - start);
                        assert(t.take(i + 1 - start) =~= cur);
                        assert(digits_val(t) >= digits_val(cur));
                    }
                }
                return Option::None;
            },
        }
        i = i + 1;
    }
    proof {
        assert(s@.subrange(start as int, n as int) =~= t);
    }
    Option::Some(acc)
}

/// Parse a signed decimal literal, as `i64::from_str` would.
pub fn parse_i64(s: &[u8]) -> (r: Option<i64>)
    ensures
        match r {
            Option::Some(n) => i64_literal(s@) && n == i64_literal_val(s@),
            Option::None => !i64_literal(s@),
        },
{
    let n = s.len();
    let neg = n > 0 && s[0] == 45;
    let body: &[u8] = if n > 0 && (s[0] == 43 || s[0] == 45) {
        slice_tail(s)
    } else {
        s
    };
    proof {
        assert(strip_sign(s@, true) =~= body@);
    }
    let mag = match parse_u64_digits(body) {
        Option::Some(m) => m,
        Option::None => {
            return Option::None;
        },
    };
    if neg {
        if mag > 9223372036854775808u64 {
            return Option::None;
        }
        if mag == 9223372036854775808u64 {
            return Option::Some(i64::MIN);
        }
        Option::Some(-(mag as i64))
    } else {
        if mag > i64::MAX as u64 {
            return Option::None;
        }
        Option::Some(mag as i64)
    }
}

/// Everything after the first byte.
fn slice_tail(s: &[u8]) -> (r: &[u8])
    requires
        s@.len() > 0,
    ensures
        r@ == s@.drop_first(),
{
    let r: &[u8] = &s[1..s.len()];
    proof {
        assert(r@ =~= s@.drop_first());
    }
    r
}

/// Parse a bare digit string into a `u64`.
fn parse_u64_digits(s: &[u8]) -> (r: Option<u64>)
    ensures
        match r {
            Option::Some(n) => all_digits(s@) && digits_val(s@) <= u64::MAX && n == digits_val(s@),
            Option::None => !(all_digits(s@) && digits_val(s@) <= u64::MAX),
        },
{
    let n = s.len();
    if n == 0 {
        return Option::None;
    }
    let mut i: usize = 0;
    let mut acc: u64 = 0;
    while i < n
        invariant
            i <= n,
            n == s@.len(),
            forall|j: int| 0 <= j < i ==> is_digit(#[trigger] s@[j]),
            acc == digits_val(s@.take(i as int)),
        decreases n - i,
    {
        let b = s[i];
        if b < 48 || b > 57 {
            proof {
                assert(!is_digit(s@[i as int]));
                assert(!all_digits(s@));
            }
            return Option::None;
        }
        let d = b - 48;
        let ghost pre = s@.take(i as int);
        let ghost cur = s@.take(i + 1);
        assert(cur.drop_last() =~= pre && cur.last() == b);
        match acc.checked_mul(10) {
            Option::Some(x) => {
                match x.checked_add(d as u64) {
                    Option::Some(y) => {
                        acc = y;
                    },
                    Option::None => {
                        proof {
                            assert(digits_val(cur) > u64::MAX);
                            if all_digits(s@) {
                                lemma_digits_val_prefix(s@, i + 1);
                            }
                        }
                        return Option::None;
                    },
                }
            },
            Option::None => {
                proof {
                    lemma_digits_val_nonneg(pre);
                    assert(digits_val(cur) > u64::MAX);
                    if all_digits(s@) {
                        lemma_digits_val_prefix(s@, i + 1);
                    }
                }
                return Option::None;
            },
        }
        i = i + 1;
    }
    proof {
        assert(s@.take(n as int) =~= s@);
    }
    Option::Some(acc)
}

} // verus!
