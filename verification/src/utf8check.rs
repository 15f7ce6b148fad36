//! An executable UTF-8 validity check, proved against vstd's specification of
//! UTF-8 encoding.

use vstd::prelude::*;
use vstd::utf8::valid_utf8;
use vstd::utf8::valid_first_scalar;
use vstd::utf8::pop_first_scalar;

verus! {

/// A sequence of ASCII bytes is valid UTF-8.
pub proof fn lemma_ascii_valid_utf8(s: Seq<u8>)
    requires
        forall|i: int| 0 <= i < s.len() ==> #[trigger] s[i] <= 127,
    ensures
        valid_utf8(s),
    decreases s.len(),
{
    if s.len() > 0 {
        let b0 = s[0];
        assert(valid_first_scalar(s)) by {
            assert(b0 & 0x7f == b0) by (bit_vector)
                requires
                    b0 <= 127,
            ;
        }
        assert(pop_first_scalar(s) =~= s.drop_first());
        lemma_ascii_valid_utf8(s.drop_first());
    }
}

/// Whether `s` is a valid UTF-8 encoding, decided byte by byte.
pub fn is_valid_utf8(s: &[u8]) -> (r: bool)
    ensures
        r == valid_utf8(s@),
{
    let n = s.len();
    let mut i: usize = 0;
    proof {
        assert(s@.skip(0) =~= s@);
    }
    while i < n
        invariant
            i <= n,
            n == s@.len(),
            valid_utf8(s@) == valid_utf8(s@.skip(i as int)),
        decreases n - i,
    {
        let ghost rest = s@.skip(i as int);
        proof {
            assert(forall|k: int| 0 <= k < rest.len() ==> rest[k] == s@[i + k]);
        }
        let b0 = s[i];
        if b0 <= 0x7f {
            proof {
                assert(valid_first_scalar(rest)) by {
                    assert(b0 & 0x7f == b0) by (bit_vector)
                        requires
                            b0 <= 0x7f,
                    ;
                }
                assert(pop_first_scalar(rest) =~= s@.skip(i + 1));
            }
            i = i + 1;
        } else if 0xc0 <= b0 && b0 <= 0xdf {
            if n - i < 2 {
                return false;
            }
            let b1 = s[i + 1];
            if !(0x80 <= b1 && b1 <= 0xbf) {
                return false;
            }
            let cp: u32 = (((b0 & 0x1f) as u32) << 6u32) | ((b1 & 0x3f) as u32);
            if cp < 0x80 {
                return false;
            }
            proof {
                assert((((b0 & 0x1f) as u32) << 6u32) | ((b1 & 0x3f) as u32) <= 0x7ff)
                    by (bit_vector);
                assert(valid_first_scalar(rest));
                assert(pop_first_scalar(rest) =~= s@.skip(i + 2));
            }
            i = i + 2;
        } else if 0xe0 <= b0 && b0 <= 0xef {
            if n - i < 3 {
                return false;
            }
            let b1 = s[i + 1];
            let b2 = s[i + 2];
            if !(0x80 <= b1 && b1 <= 0xbf) || !(0x80 <= b2 && b2 <= 0xbf) {
                return false;
            }
            let cp: u32 = (((b0 & 0x0f) as u32) << 12u32) | (((b1 & 0x3f) as u32) << 6u32) | ((b2
                & 0x3f) as u32);
            if cp < 0x800 {
                return false;
            }
            if 0xd800 <= cp && cp <= 0xdfff {
                return false;
            }
            proof {
                assert(valid_first_scalar(rest));
                assert(pop_first_scalar(rest) =~= s@.skip(i + 3));
            }
            i = i + 3;
        } else if 0xf0 <= b0 && b0 <= 0xf7 {
            if n - i < 4 {
                return false;
            }
            let b1 = s[i + 1];
            let b2 = s[i + 2];
            let b3 = s[i + 3];
            if !(0x80 <= b1 && b1 <= 0xbf) || !(0x80 <= b2 && b2 <= 0xbf) || !(0x80 <= b3 && b3
                <= 0xbf) {
                return false;
            }
            let cp: u32 = (((b0 & 0x07) as u32) << 18u32) | (((b1 & 0x3f) as u32) << 12u32) | (((b2
                & 0x3f) as u32) << 6u32) | ((b3 & 0x3f) as u32);
            if cp < 0x10000 || cp > 0x10ffff {
                return false;
            }
            proof {
                assert(valid_first_scalar(rest));
                assert(pop_first_scalar(rest) =~= s@.skip(i + 4));
            }
            i = i + 4;
        } else {
            return false;
        }
    }
    proof {
        assert(s@.skip(n as int) =~= Seq::<u8>::empty());
    }
    true
}

} // verus!
