//! The textual form of RESP3 doubles. Floating point cannot appear in
//! verified code, so a double travels as its header text: this module gives
//! the grammar of acceptable headers (the grammar documented for Rust's
//! float parsing), the canonical spellings of the non-finite forms, and the
//! executable classifier the decoder uses.

use vstd::prelude::*;
use crate::bytes::is_digit;
use crate::num::all_digits;
use crate::num::strip_sign;
use vstd::slice::slice_to_vec;

verus! {

/// ASCII lower-casing of one byte; bytes outside `A..=Z` are unchanged.
pub open spec fn ascii_lower_byte(b: u8) -> u8 {
    if 65 <= b <= 90 {
        (b + 32) as u8
    } else {
        b
    }
}

/// ASCII lower-casing of a byte string.
pub open spec fn ascii_lower(s: Seq<u8>) -> Seq<u8> {
    s.map_values(|b: u8| ascii_lower_byte(b))
}

/// The word `inf`, the canonical positive infinity.
pub open spec fn word_inf() -> Seq<u8> {
    seq![105u8, 110u8, 102u8]
}

/// The word `infinity`, an accepted spelling of infinity.
pub open spec fn word_infinity() -> Seq<u8> {
    seq![105u8, 110u8, 102u8, 105u8, 110u8, 105u8, 116u8, 121u8]
}

/// The word `nan`, the canonical not-a-number.
pub open spec fn word_nan() -> Seq<u8> {
    seq![110u8, 97u8, 110u8]
}

/// The canonical negative infinity, `-inf`.
pub open spec fn word_neg_inf() -> Seq<u8> {
    seq![45u8] + word_inf()
}

/// A sign-stripped special word: `inf`, `infinity` or `nan`, case-insensitive.
pub open spec fn special_word(t: Seq<u8>) -> bool {
    ascii_lower(t) == word_inf() || ascii_lower(t) == word_infinity() || ascii_lower(t)
        == word_nan()
}

/// Length of the leading run of decimal digits.
pub open spec fn digit_run(s: Seq<u8>) -> int
    decreases s.len(),
{
    if s.len() > 0 && is_digit(s[0]) {
        1 + digit_run(s.drop_first())
    } else {
        0
    }
}

/// What `digit_run` returns: the longest digit prefix.
pub proof fn lemma_digit_run(s: Seq<u8>)
    ensures
        0 <= digit_run(s) <= s.len(),
        forall|j: int| 0 <= j < digit_run(s) ==> is_digit(#[trigger] s[j]),
        digit_run(s) < s.len() ==> !is_digit(s[digit_run(s)]),
    decreases s.len(),
{
    if s.len() > 0 && is_digit(s[0]) {
        lemma_digit_run(s.drop_first());
        let r = s.drop_first();
        assert(forall|j: int| 0 <= j < r.len() ==> #[trigger] r[j] == s[j + 1]);
        assert forall|j: int| 0 <= j < digit_run(s) implies is_digit(#[trigger] s[j]) by {
            if j > 0 {
                assert(is_digit(r[j - 1]));
            }
        }
    }
}

/// Digits up to `k` with a non-digit (or the end) at `k` pin `digit_run` down.
pub proof fn lemma_digit_run_witness(s: Seq<u8>, k: int)
    requires
        0 <= k <= s.len(),
        forall|j: int| 0 <= j < k ==> is_digit(#[trigger] s[j]),
        k < s.len() ==> !is_digit(s[k]),
    ensures
        digit_run(s) == k,
    decreases s.len(),
{
    if s.len() > 0 && is_digit(s[0]) {
        let r = s.drop_first();
        assert(forall|j: int| 0 <= j < r.len() ==> #[trigger] r[j] == s[j + 1]);
        lemma_digit_run_witness(r, k - 1);
    }
}

/// A digit string is exactly a digit run covering the whole string.
pub proof fn lemma_all_digits_run(s: Seq<u8>)
    ensures
        all_digits(s) == (s.len() > 0 && digit_run(s) == s.len()),
{
    lemma_digit_run(s);
    if s.len() > 0 && forall|j: int| 0 <= j < s.len() ==> is_digit(#[trigger] s[j]) {
        lemma_digit_run_witness(s, s.len() as int);
    }
}

/// An exponent part: `e` or `E`, an optional sign, then digits.
pub open spec fn exp_ok(s: Seq<u8>) -> bool {
    s.len() > 0 && (s[0] == 101 || s[0] == 69) && all_digits(strip_sign(s.drop_first(), true))
}

/// What may follow the integer digits after a decimal point: fraction digits
/// (required when `need_digits`), then an optional exponent.
pub open spec fn frac_exp_ok(s: Seq<u8>, need_digits: bool) -> bool {
    let d = digit_run(s);
    let r = s.skip(d);
    (need_digits ==> d > 0) && (r.len() == 0 || exp_ok(r))
}

/// An unsigned decimal float: digits with an optional fraction and exponent,
/// or a bare fraction with an optional exponent.
pub open spec fn number_ok(s: Seq<u8>) -> bool {
    let d = digit_run(s);
    let r = s.skip(d);
    if d == 0 {
        r.len() > 0 && r[0] == 46 && frac_exp_ok(r.drop_first(), true)
    } else if r.len() == 0 {
        true
    } else if r[0] == 46 {
        frac_exp_ok(r.drop_first(), false)
    } else {
        exp_ok(r)
    }
}

/// A double header as float parsing accepts it: an optional sign, then a
/// special word or a decimal number.
pub open spec fn double_literal(s: Seq<u8>) -> bool {
    special_word(strip_sign(s, true)) || number_ok(strip_sign(s, true))
}

/// The stored form of an accepted header: special words collapse to their
/// canonical spelling, finite numbers are kept verbatim.
pub open spec fn double_canon_of(s: Seq<u8>) -> Seq<u8> {
    let neg = s.len() > 0 && s[0] == 45;
    let t = strip_sign(s, true);
    if ascii_lower(t) == word_nan() {
        word_nan()
    } else if special_word(t) {
        if neg {
            word_neg_inf()
        } else {
            word_inf()
        }
    } else {
        s
    }
}

/// A well-formed stored double payload: a canonical special word, or a
/// finite literal.
pub open spec fn double_stored(r: Seq<u8>) -> bool {
    r == word_inf() || r == word_neg_inf() || r == word_nan() || number_ok(strip_sign(r, true))
}

/// A decimal number never spells a special word.
pub proof fn lemma_number_not_special(t: Seq<u8>)
    requires
        number_ok(t),
    ensures
        !special_word(t),
{
    lemma_digit_run(t);
    let d = digit_run(t);
    if d == 0 {
        assert(t.len() > 0 && t[0] == 46);
    } else {
        assert(is_digit(t[0]));
    }
    assert(ascii_lower_byte(t[0]) == t[0]);
    assert(ascii_lower(t).len() == t.len());
    if ascii_lower(t) == word_inf() {
        assert(ascii_lower(t)[0] == 105);
    }
    if ascii_lower(t) == word_infinity() {
        assert(ascii_lower(t)[0] == 105);
    }
    if ascii_lower(t) == word_nan() {
        assert(ascii_lower(t)[0] == 110);
    }
}

/// A well-formed stored payload is accepted on the wire and is its own
/// canonical form.
pub proof fn lemma_double_stored_round(r: Seq<u8>)
    requires
        double_stored(r),
    ensures
        double_literal(r),
        double_canon_of(r) == r,
{
    if r == word_inf() {
        assert(strip_sign(r, true) =~= r);
        assert(ascii_lower(r) =~= r);
    } else if r == word_neg_inf() {
        assert(r[0] == 45);
        assert(strip_sign(r, true) =~= word_inf());
        assert(ascii_lower(word_inf()) =~= word_inf());
        assert(double_canon_of(r) =~= r);
    } else if r == word_nan() {
        assert(strip_sign(r, true) =~= r);
        assert(ascii_lower(r) =~= r);
    } else {
        lemma_number_not_special(strip_sign(r, true));
    }
}

/// ASCII lower-casing of a byte slice.
fn lower_bytes(s: &[u8]) -> (r: Vec<u8>)
    ensures
        r@ == ascii_lower(s@),
{
    let n = s.len();
    let mut r: Vec<u8> = Vec::new();
    let mut i: usize = 0;
    while i < n
        invariant
            n == s@.len(),
            i <= n,
            r@ == ascii_lower(s@.take(i as int)),
        decreases n - i,
    {
        let b = s[i];
        let l = if 65 <= b && b <= 90 {
            b + 32
        } else {
            b
        };
        r.push(l);
        proof {
            assert(s@.take(i + 1).drop_last() =~= s@.take(i as int));
            assert(r@ =~= ascii_lower(s@.take(i + 1))) by {
                assert(ascii_lower(s@.take(i + 1)).drop_last() =~= ascii_lower(
                    s@.take(i as int),
                ));
            }
        }
        i = i + 1;
    }
    proof {
        assert(s@.take(n as int) =~= s@);
    }
    r
}

/// Number of digits in `s` from `from` on.
fn count_digits(s: &[u8], from: usize) -> (k: usize)
    requires
        from <= s@.len(),
    ensures
        from <= k <= s@.len(),
        k - from == digit_run(s@.skip(from as int)),
        k < s@.len() ==> !is_digit(s@[k as int]),
{
    let n = s.len();
    let mut i = from;
    while i < n
        invariant
            from <= i <= n,
            n == s@.len(),
            forall|j: int| from <= j < i ==> is_digit(#[trigger] s@[j]),
        decreases n - i,
    {
        let b = s[i];
        if b < 48 || b > 57 {
            proof {
                let t = s@.skip(from as int);
                assert(forall|j: int| 0 <= j < t.len() ==> #[trigger] t[j] == s@[j + from]);
                lemma_digit_run_witness(t, i - from);
            }
            return i;
        }
        i = i + 1;
    }
    proof {
        let t = s@.skip(from as int);
        assert(forall|j: int| 0 <= j < t.len() ==> #[trigger] t[j] == s@[j + from]);
        lemma_digit_run_witness(t, n - from);
    }
    n
}

/// Whether an exponent part starts at `from`.
fn exp_check(s: &[u8], from: usize) -> (r: bool)
    requires
        from <= s@.len(),
    ensures
        r == exp_ok(s@.skip(from as int)),
{
    let n = s.len();
    let ghost t = s@.skip(from as int);
    proof {
        assert(forall|j: int| 0 <= j < t.len() ==> #[trigger] t[j] == s@[j + from]);
    }
    if from == n {
        return false;
    }
    let e = s[from];
    if e != 101 && e != 69 {
        return false;
    }
    let mut j = from + 1;
    if j < n && (s[j] == 43 || s[j] == 45) {
        j = j + 1;
    }
    proof {
        assert(strip_sign(t.drop_first(), true) =~= s@.skip(j as int));
    }
    let k = count_digits(s, j);
    proof {
        lemma_all_digits_run(s@.skip(j as int));
    }
    j < n && k == n
}

/// Whether `s` is an unsigned decimal float.
fn number_check(s: &[u8]) -> (r: bool)
    ensures
        r == number_ok(s@),
{
    let n = s.len();
    let d = count_digits(s, 0);
    proof {
        assert(s@.skip(0) =~= s@);
        assert(forall|j: int|
            0 <= j < s@.len() ==> #[trigger] s@.skip(0)[j] == s@[j]);
    }
    if d == 0 {
        if n == 0 || s[0] != 46 {
            return false;
        }
        proof {
            assert(s@.skip(0).drop_first() =~= s@.skip(1));
        }
        let k = count_digits(s, 1);
        proof {
            assert(s@.skip(1).skip(k - 1) =~= s@.skip(k as int));
        }
        if k == 1 {
            return false;
        }
        if k == n {
            return true;
        }
        exp_check(s, k)
    } else {
        proof {
            assert(s@.skip(0).skip(d as int) =~= s@.skip(d as int));
        }
        if d == n {
            return true;
        }
        if s[d] == 46 {
            proof {
                assert(s@.skip(d as int).drop_first() =~= s@.skip(d + 1));
            }
            let k = count_digits(s, d + 1);
            proof {
                assert(s@.skip(d + 1).skip(k - (d + 1)) =~= s@.skip(k as int));
            }
            if k == n {
                return true;
            }
            exp_check(s, k)
        } else {
            exp_check(s, d)
        }
    }
}

/// The canonical `nan` payload.
fn make_nan() -> (r: Vec<u8>)
    ensures
        r@ == word_nan(),
{
    let mut v: Vec<u8> = Vec::new();
    v.push(110);
    v.push(97);
    v.push(110);
    proof {
        assert(v@ =~= word_nan());
    }
    v
}

/// The canonical `inf` or `-inf` payload.
fn make_inf(neg: bool) -> (r: Vec<u8>)
    ensures
        neg ==> r@ == word_neg_inf(),
        !neg ==> r@ == word_inf(),
{
    let mut v: Vec<u8> = Vec::new();
    if neg {
        v.push(45);
    }
    v.push(105);
    v.push(110);
    v.push(102);
    proof {
        if neg {
            assert(v@ =~= word_neg_inf());
        } else {
            assert(v@ =~= word_inf());
        }
    }
    v
}

/// Whether `s` spells `inf`, `infinity` or `nan` (already lower-cased);
/// distinguishes `nan` from the infinities.
fn special_kind(low: &Vec<u8>) -> (r: (bool, bool))
    ensures
        r.0 == (low@ == word_nan()),
        r.1 == (low@ == word_inf() || low@ == word_infinity()),
{
    let n = low.len();
    if n == 3 && low[0] == 110 && low[1] == 97 && low[2] == 110 {
        proof {
            assert(low@ =~= word_nan());
        }
        return (true, false);
    }
    proof {
        if low@ == word_nan() {
            assert(low@.len() == 3 && low@[0] == 110 && low@[1] == 97 && low@[2] == 110);
        }
    }
    if n == 3 && low[0] == 105 && low[1] == 110 && low[2] == 102 {
        proof {
            assert(low@ =~= word_inf());
        }
        return (false, true);
    }
    if n == 8 && low[0] == 105 && low[1] == 110 && low[2] == 102 && low[3] == 105 && low[4] == 110
        && low[5] == 105 && low[6] == 116 && low[7] == 121 {
        proof {
            assert(low@ =~= word_infinity());
        }
        return (false, true);
    }
    proof {
        if low@ == word_inf() {
            assert(low@.len() == 3 && low@[0] == 105 && low@[1] == 110 && low@[2] == 102);
        }
        if low@ == word_infinity() {
            assert(low@.len() == 8 && low@[0] == 105 && low@[1] == 110 && low@[2] == 102
                && low@[3] == 105 && low@[4] == 110 && low@[5] == 105 && low@[6] == 116
                && low@[7] == 121);
        }
    }
    (false, false)
}

/// Classify a double header: its canonical stored payload when the grammar
/// accepts it, nothing when it does not.
pub fn classify_double(s: &[u8]) -> (r: Option<Vec<u8>>)
    ensures
        match r {
            Option::Some(c) => double_literal(s@) && c@ == double_canon_of(s@) && double_stored(
                c@,
            ),
            Option::None => !double_literal(s@),
        },
{
    let n = s.len();
    let neg = n > 0 && s[0] == 45;
    let body: &[u8] = if n > 0 && (s[0] == 43 || s[0] == 45) {
        &s[1..n]
    } else {
        s
    };
    proof {
        assert(body@ =~= strip_sign(s@, true));
    }
    let low = lower_bytes(body);
    let (is_nan, is_inf) = special_kind(&low);
    if is_nan {
        return Option::Some(make_nan());
    }
    if is_inf {
        proof {
            assert(word_inf()[0] == 105 && word_nan()[0] == 110);
            assert(word_infinity().len() == 8 && word_nan().len() == 3);
            assert(ascii_lower(body@) != word_nan());
        }
        return Option::Some(make_inf(neg));
    }
    if number_check(body) {
        proof {
            lemma_number_not_special(body@);
        }
        Option::Some(slice_to_vec(s))
    } else {
        Option::None
    }
}

} // verus!
