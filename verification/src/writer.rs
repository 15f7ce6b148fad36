//! The byte-sink capability responses are written to, and a sink over bytes
//! held in memory.

use vstd::prelude::*;
use crate::error::KiwiError;

verus! {

/// A sink of bytes for encoded responses.
///
/// An implementation exposes everything written so far as `sink`, and says
/// with `reliable` whether its writes can fail at all; a reliable writer
/// never refuses bytes.
pub trait BytesWriter {
    /// Everything successfully written so far.
    spec fn sink(&self) -> Seq<u8>;

    /// Whether writes to this sink always succeed.
    spec fn reliable(&self) -> bool;

    /// Write all of `bytes`, or fail with a connection error.
    fn write_all(&mut self, bytes: &[u8]) -> (r: Result<(), KiwiError>)
        ensures
            match r {
                Result::Ok(_) => {
                    &&& final(self).sink() == old(self).sink() + bytes@
                    &&& final(self).reliable() == old(self).reliable()
                },
                Result::Err(e) => {
                    &&& e is ConnectionError
                    &&& !old(self).reliable()
                },
            },
    ;
}

/// A sink that collects everything written into memory.
pub struct MemWriter {
    data: Vec<u8>,
}

impl MemWriter {
    /// An empty sink.
    pub fn new() -> (r: MemWriter)
        ensures
            r.sink() == Seq::<u8>::empty(),
            r.reliable(),
    {
        MemWriter { data: Vec::new() }
    }

    /// Everything written so far.
    pub fn bytes(&self) -> (r: &Vec<u8>)
        ensures
            r@ == self.sink(),
    {
        &self.data
    }
}

impl BytesWriter for MemWriter {
    closed spec fn sink(&self) -> Seq<u8> {
        self.data@
    }

    closed spec fn reliable(&self) -> bool {
        true
    }

    fn write_all(&mut self, bytes: &[u8]) -> (r: Result<(), KiwiError>) {
        crate::encode::push_all(&mut self.data, bytes);
        Result::Ok(())
    }
}

} // verus!
