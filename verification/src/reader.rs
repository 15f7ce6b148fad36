//! The byte-stream capability the decoder consumes, and a reader over bytes
//! held in memory. A reader hands out CRLF-terminated lines and exact byte
//! counts from a fixed stream; running out of bytes reads as the connection
//! being closed.

use vstd::prelude::*;
use crate::bytes::find_crlf;
use crate::bytes::crlf_at;
use crate::bytes::lemma_find_crlf;
use crate::bytes::lemma_find_crlf_witness;
use crate::error::ParseError;
use vstd::slice::slice_to_vec;

verus! {

/// A buffered source of bytes for the decoder.
pub trait BytesReader {
    /// The bytes not yet consumed.
    spec fn data(&self) -> Seq<u8>;

    /// The whole stream this reader was given; reading never changes it.
    spec fn full(&self) -> Seq<u8>;

    /// The bytes up to the next CRLF, the terminator consumed too; when no
    /// complete line remains the stream counts as closed and nothing is
    /// consumed.
    fn read_line(&mut self) -> (r: Result<Vec<u8>, ParseError>)
        ensures
            match r {
                Result::Ok(line) => {
                    &&& find_crlf(old(self).data()) matches Option::Some(n)
                    &&& line@ == old(self).data().take(n)
                    &&& final(self).data() == old(self).data().skip(n + 2)
                },
                Result::Err(e) => {
                    &&& e == ParseError::ConnectionClosed
                    &&& find_crlf(old(self).data()) is None
                    &&& final(self).data() == old(self).data()
                },
            },
            final(self).full() == old(self).full(),
    ;

    /// Exactly `n` bytes; when fewer remain the stream counts as closed and
    /// nothing is consumed.
    fn read_bytes(&mut self, n: usize) -> (r: Result<Vec<u8>, ParseError>)
        ensures
            match r {
                Result::Ok(b) => {
                    &&& n <= old(self).data().len()
                    &&& b@ == old(self).data().take(n as int)
                    &&& final(self).data() == old(self).data().skip(n as int)
                },
                Result::Err(e) => {
                    &&& e == ParseError::ConnectionClosed
                    &&& old(self).data().len() < n
                    &&& final(self).data() == old(self).data()
                },
            },
            final(self).full() == old(self).full(),
    ;
}

/// A reader over a byte slice held in memory.
pub struct SliceReader<'a> {
    buf: &'a [u8],
    pos: usize,
}

impl<'a> SliceReader<'a> {
    /// How many bytes have been consumed.
    pub closed spec fn cursor(&self) -> int {
        self.pos as int
    }

    #[verifier::type_invariant]
    spec fn inv(self) -> bool {
        self.pos <= self.buf@.len()
    }

    /// A reader over all of `buf`.
    pub fn new(buf: &'a [u8]) -> (r: Self)
        ensures
            r.full() == buf@,
            r.cursor() == 0,
            r.data() == buf@,
    {
        let r = SliceReader { buf, pos: 0 };
        proof {
            assert(buf@.skip(0) =~= buf@);
        }
        r
    }

    /// How many bytes have been consumed so far; what remains is the
    /// underlying buffer from the cursor on.
    pub fn position(&self) -> (p: usize)
        ensures
            p == self.cursor(),
            0 <= self.cursor() <= self.full().len(),
            self.data() == self.full().skip(self.cursor()),
    {
        proof {
            use_type_invariant(self);
        }
        self.pos
    }
}

impl<'a> BytesReader for SliceReader<'a> {
    closed spec fn data(&self) -> Seq<u8> {
        self.buf@.skip(self.pos as int)
    }

    closed spec fn full(&self) -> Seq<u8> {
        self.buf@
    }

    #[verifier::loop_isolation(false)]
    fn read_line(&mut self) -> (r: Result<Vec<u8>, ParseError>) {
        proof {
            use_type_invariant(&*self);
        }
        let n = self.buf.len();
        let start = self.pos;
        let ghost full = self.buf@;
        let ghost d = self.buf@.skip(start as int);
        proof {
            assert(forall|k: int| 0 <= k < d.len() ==> #[trigger] d[k] == full[k + start]);
        }
        let mut i = start;
        while n - i >= 2
            invariant
                start <= i <= n,
                n == self.buf@.len(),
                self.buf@ == full,
                self.pos == start,
                start <= n,
                d == full.skip(start as int),
                forall|k: int| 0 <= k < d.len() ==> #[trigger] d[k] == full[k + start],
                forall|j: int| start <= j < i ==> !(#[trigger] full[j] == 13 && full[j + 1] == 10),
            decreases n - i,
        {
            if self.buf[i] == 13 && self.buf[i + 1] == 10 {
                let line = slice_to_vec(&self.buf[start..i]);
                proof {
                    assert(crlf_at(d, i - start));
                    assert forall|j: int| 0 <= j < i - start implies !crlf_at(d, j) by {
                        assert(!(full[j + start] == 13 && full[j + start + 1] == 10));
                    }
                    lemma_find_crlf_witness(d, i - start);
                    assert(line@ =~= d.take(i - start));
                }
                self.pos = i + 2;
                proof {
                    assert(self.buf@.skip((i + 2) as int) =~= d.skip((i - start) + 2));
                }
                return Result::Ok(line);
            }
            i = i + 1;
        }
        proof {
            assert forall|j: int| 0 <= j && j + 2 <= d.len() implies !crlf_at(d, j) by {
                assert(start <= j + start < i || i <= j + start);
                if j + start < i {
                    assert(!(full[j + start] == 13 && full[j + start + 1] == 10));
                } else {
                    assert(j + start + 2 > n);
                }
            }
            lemma_find_crlf(d);
            match find_crlf(d) {
                Option::Some(k) => {
                    assert(crlf_at(d, k));
                    assert(false);
                },
                Option::None => {},
            }
        }
        Result::Err(ParseError::ConnectionClosed)
    }

    fn read_bytes(&mut self, n: usize) -> (r: Result<Vec<u8>, ParseError>) {
        proof {
            use_type_invariant(&*self);
        }
        let len = self.buf.len();
        let start = self.pos;
        if n > len - start {
            return Result::Err(ParseError::ConnectionClosed);
        }
        let chunk = slice_to_vec(&self.buf[start..start + n]);
        self.pos = start + n;
        proof {
            assert(chunk@ =~= self.buf@.skip(start as int).take(n as int));
            assert(self.buf@.skip((start + n) as int) =~= self.buf@.skip(start as int).skip(
                n as int,
            ));
        }
        Result::Ok(chunk)
    }
}

} // verus!
