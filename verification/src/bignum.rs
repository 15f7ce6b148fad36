//! Arbitrary-precision decimal numbers. A big number lives in a `Value` as
//! its canonical decimal digits; parsing a wire header goes through the
//! num-bigint crate behind a trusted wrapper whose contract states exactly
//! which literals are accepted and what their canonical form is.

use vstd::prelude::*;
use crate::bytes::is_digit;
use crate::num::all_digits;
use crate::num::strip_sign;

verus! {

/// A radix-10 big-number literal as num-bigint accepts it: one optional
/// sign, then digits with `_` separators, beginning with a digit.
pub open spec fn big_literal(s: Seq<u8>) -> bool {
    let t = strip_sign(s, true);
    t.len() > 0 && is_digit(t[0]) && forall|i: int|
        0 <= i < t.len() ==> is_digit(#[trigger] t[i]) || t[i] == 95
}

/// The digit body with the `_` separators removed.
pub open spec fn drop_separators(t: Seq<u8>) -> Seq<u8> {
    t.filter(|b: u8| b != 95)
}

/// Digits with leading zeros removed; a lone zero stays.
pub open spec fn strip_leading_zeros(d: Seq<u8>) -> Seq<u8>
    decreases d.len(),
{
    if d.len() <= 1 {
        d
    } else if d[0] == 48 {
        strip_leading_zeros(d.drop_first())
    } else {
        d
    }
}

/// The canonical form of an accepted literal: stripped digits, with a minus
/// sign unless the value is zero.
pub open spec fn big_canon_of(s: Seq<u8>) -> Seq<u8> {
    let neg = s.len() > 0 && s[0] == 45;
    let d = strip_leading_zeros(drop_separators(strip_sign(s, true)));
    if neg && d != seq![48u8] {
        seq![45u8] + d
    } else {
        d
    }
}

/// A canonical decimal: digits without a leading zero, a minus sign only on
/// a nonzero value.
pub open spec fn big_canon(s: Seq<u8>) -> bool {
    if s.len() >= 1 && s[0] == 45 {
        s.len() >= 2 && all_digits(s.drop_first()) && s[1] != 48
    } else {
        all_digits(s) && (s.len() == 1 || s[0] != 48)
    }
}

/// Filtering the separators out of a separator-free string changes nothing.
proof fn lemma_drop_separators_id(t: Seq<u8>)
    requires
        forall|i: int| 0 <= i < t.len() ==> #[trigger] t[i] != 95,
    ensures
        drop_separators(t) == t,
    decreases t.len(),
{
    reveal(Seq::filter);
    if t.len() > 0 {
        lemma_drop_separators_id(t.drop_last());
        assert(drop_separators(t) =~= t);
    }
}

/// A canonical decimal is an accepted literal and its own canonical form.
pub proof fn lemma_big_canon_round(c: Seq<u8>)
    requires
        big_canon(c),
    ensures
        big_literal(c),
        big_canon_of(c) == c,
{
    if c.len() >= 1 && c[0] == 45 {
        let t = c.drop_first();
        assert(strip_sign(c, true) =~= t);
        lemma_drop_separators_id(t);
        assert(strip_leading_zeros(t) == t);
        assert(t != seq![48u8]) by {
            assert(t[0] != 48);
        }
        assert(seq![45u8] + t =~= c);
    } else {
        assert(c[0] != 43 && c[0] != 45) by {
            assert(is_digit(c[0]));
        }
        assert(strip_sign(c, true) =~= c);
        lemma_drop_separators_id(c);
        assert(strip_leading_zeros(c) == c);
    }
}

/// Relies on `num_bigint::BigInt::parse_bytes` with radix 10 and on the
/// display of `BigInt`: radix-10 parsing accepts exactly an optionally
/// signed digit string with `_` separators (the first body byte a digit),
/// and printing the parsed value yields its canonical decimal form.
#[verifier::external_body]
pub(crate) fn big_number_from_wire(line: &[u8]) -> (r: Option<Vec<u8>>)
    ensures
        r is Some <==> big_literal(line@),
        r matches Some(c) ==> c@ == big_canon_of(line@),
{
    num_bigint::BigInt::parse_bytes(line, 10).map(|n| n.to_string().into_bytes())
}

} // verus!
