//! Byte-level helpers shared by the codec: CRLF framing, ASCII classification
//! and case folding, and lexicographic comparison of byte strings.

use vstd::prelude::*;

verus! {

/// Carriage return, the first byte of the RESP3 line terminator.
pub const CR: u8 = 13;

/// Line feed, the second byte of the RESP3 line terminator.
pub const LF: u8 = 10;

/// True when `b` is an ASCII decimal digit.
pub open spec fn is_digit(b: u8) -> bool {
    48 <= b <= 57
}

/// Numeric value of an ASCII decimal digit.
pub open spec fn digit_val(b: u8) -> int
    recommends
        is_digit(b),
{
    b - 48
}

/// ASCII upper-casing of one byte; bytes outside `a..=z` are unchanged.
pub open spec fn ascii_upper_byte(b: u8) -> u8 {
    if 97 <= b <= 122 {
        (b - 32) as u8
    } else {
        b
    }
}

/// ASCII upper-casing of a byte string.
pub open spec fn ascii_upper(s: Seq<u8>) -> Seq<u8> {
    s.map_values(|b: u8| ascii_upper_byte(b))
}

/// Index of the first CRLF pair in `s`, if any.
pub open spec fn find_crlf(s: Seq<u8>) -> Option<int>
    decreases s.len(),
{
    if s.len() < 2 {
        Option::None
    } else if s[0] == CR && s[1] == LF {
        Option::Some(0)
    } else {
        match find_crlf(s.drop_first()) {
            Option::Some(i) => Option::Some(i + 1),
            Option::None => Option::None,
        }
    }
}

/// True when a CRLF pair starts at index `j` of `s`.
pub open spec fn crlf_at(s: Seq<u8>, j: int) -> bool {
    0 <= j && j + 2 <= s.len() && s[j] == CR && s[j + 1] == LF
}

/// What `find_crlf` returns: the first CRLF pair, or none anywhere.
pub proof fn lemma_find_crlf(s: Seq<u8>)
    ensures
        match find_crlf(s) {
            Option::Some(n) => crlf_at(s, n) && forall|j: int| 0 <= j < n ==> !crlf_at(s, j),
            Option::None => forall|j: int| !crlf_at(s, j),
        },
    decreases s.len(),
{
    if s.len() < 2 {
    } else if s[0] == CR && s[1] == LF {
    } else {
        lemma_find_crlf(s.drop_first());
        let r = s.drop_first();
        assert(forall|j: int| 0 <= j && j + 2 <= r.len() ==> #[trigger] r[j] == s[j + 1] && r[j + 1]
            == s[j + 2]);
        match find_crlf(r) {
            Option::Some(m) => {
                assert(crlf_at(s, m + 1));
                assert forall|j: int| 0 <= j < m + 1 implies !crlf_at(s, j) by {
                    if j > 0 {
                        assert(!crlf_at(r, j - 1));
                    }
                }
            },
            Option::None => {
                assert forall|j: int| 0 <= j && j + 2 <= s.len() implies !crlf_at(s, j) by {
                    if j > 0 {
                        assert(!crlf_at(r, j - 1));
                    }
                }
            },
        }
    }
}

/// A CRLF pair at `n` with none earlier pins `find_crlf` down.
pub proof fn lemma_find_crlf_witness(s: Seq<u8>, n: int)
    requires
        crlf_at(s, n),
        forall|j: int| 0 <= j < n ==> !crlf_at(s, j),
    ensures
        find_crlf(s) == Option::Some(n),
{
    lemma_find_crlf(s);
    match find_crlf(s) {
        Option::Some(m) => {
            if m < n {
                assert(!crlf_at(s, m));
            } else if n < m {
                assert(!crlf_at(s, n));
            }
        },
        Option::None => {
            assert(!crlf_at(s, n));
        },
    }
}

/// Exact equality of two byte slices.
pub fn bytes_eq(a: &[u8], b: &[u8]) -> (r: bool)
    ensures
        r == (a@ == b@),
{
    if a.len() != b.len() {
        return false;
    }
    let n = a.len();
    let mut i: usize = 0;
    while i < n
        invariant
            n == a@.len() == b@.len(),
            i <= n,
            forall|j: int| 0 <= j < i ==> a@[j] == b@[j],
        decreases n - i,
    {
        if a[i] != b[i] {
            assert(a@[i as int] != b@[i as int]);
            return false;
        }
        i = i + 1;
    }
    proof {
        assert(a@ =~= b@);
    }
    true
}

/// ASCII upper-casing of a byte slice.
pub fn to_upper_bytes(s: &[u8]) -> (r: Vec<u8>)
    ensures
        r@ == ascii_upper(s@),
{
    let n = s.len();
    let mut r: Vec<u8> = Vec::new();
    let mut i: usize = 0;
    while i < n
        invariant
            n == s@.len(),
            i <= n,
            r@ == ascii_upper(s@.take(i as int)),
        decreases n - i,
    {
        let b = s[i];
        let u = if 97 <= b && b <= 122 {
            b - 32
        } else {
            b
        };
        r.push(u);
        proof {
            assert(s@.take(i + 1).drop_last() =~= s@.take(i as int));
            assert(r@ =~= ascii_upper(s@.take(i + 1))) by {
                assert(ascii_upper(s@.take(i + 1)).drop_last() =~= ascii_upper(
                    s@.take(i as int),
                ));
            }
        }
        i = i + 1;
    }
    proof {
        assert(s@.take(n as int) =~= s@);
    }
    r
}

} // verus!
