//! The connection driver: the read, execute, write loop over one
//! connection's byte stream, the error routing around it, and the meaning
//! of a whole conversation as a function of the bytes that arrived.

use vstd::prelude::*;
use crate::value::Value;
use crate::reader::BytesReader;
use crate::reader::SliceReader;
use crate::writer::BytesWriter;
use crate::engine::Engine;
use crate::engine::InMemoryEngine;
use crate::error::KiwiError;
use crate::error::ParseError;
use crate::command::KiwiCommandParser;
use crate::command::spec_parse_command;
use crate::command::parse_command_from_types;
use crate::processor::KiwiCommandProcessor;
use crate::processor::process_model;
use crate::response::KiwiResponseWriter;
use crate::response::response_frame;
use crate::handler::ErrorHandler;
use crate::handler::recoverable;
use crate::handler::error_frame;
use crate::decode::dec_value;
use crate::decode::ParseOutcome;
use crate::decode::MAX_DEPTH;
use crate::decode::lemma_dec_value_used;

verus! {

/// The conversation a connection's bytes earn: everything the server writes
/// back, and the store it leaves behind. The conversation ends at the first
/// incomplete frame or terminal error.
pub open spec fn session(input: Seq<u8>, st: Map<Seq<u8>, Seq<u8>>) -> (Seq<u8>, Map<
    Seq<u8>,
    Seq<u8>,
>)
    decreases input.len(),
{
    match dec_value(input, MAX_DEPTH as nat) {
        ParseOutcome::Incomplete => (Seq::empty(), st),
        ParseOutcome::Fail { e, used } => {
            if recoverable(KiwiError::ParseError(e)) && 1 <= used <= input.len() {
                let rest = session(input.skip(used), st);
                (error_frame(KiwiError::ParseError(e)) + rest.0, rest.1)
            } else {
                (Seq::empty(), st)
            }
        },
        ParseOutcome::Done { v, used } => {
            if 1 <= used <= input.len() {
                match spec_parse_command(v) {
                    Result::Err(ce) => {
                        let rest = session(input.skip(used), st);
                        (error_frame(KiwiError::CommandError(ce)) + rest.0, rest.1)
                    },
                    Result::Ok(c) => {
                        let (pr, st1) = process_model(c, st);
                        match pr {
                            Result::Ok(rm) => {
                                let rest = session(input.skip(used), st1);
                                (response_frame(rm) + rest.0, rest.1)
                            },
                            Result::Err(e2) => {
                                if recoverable(e2) {
                                    let rest = session(input.skip(used), st1);
                                    (error_frame(e2) + rest.0, rest.1)
                                } else {
                                    (Seq::empty(), st1)
                                }
                            },
                        }
                    },
                }
            } else {
                (Seq::empty(), st)
            }
        },
    }
}

/// Error recovery: a malformed frame is answered with its error frame, and
/// what follows it on the connection is handled as if it stood alone.
pub proof fn lemma_error_recovery(input: Seq<u8>, st: Map<Seq<u8>, Seq<u8>>)
    requires
        dec_value(input, MAX_DEPTH as nat) matches ParseOutcome::Fail { e, used } && recoverable(
            KiwiError::ParseError(e),
        ) && 1 <= used <= input.len(),
    ensures
        ({
            let e = dec_value(input, MAX_DEPTH as nat)->Fail_e;
            let used = dec_value(input, MAX_DEPTH as nat)->Fail_used;
            let rest = session(input.skip(used), st);
            session(input, st) == (error_frame(KiwiError::ParseError(e)) + rest.0, rest.1)
        }),
{
}

/// Error recovery for commands: a frame that decodes but names no usable
/// command is answered with its error frame, and what follows it on the
/// connection is handled as if it stood alone.
pub proof fn lemma_command_error_recovery(input: Seq<u8>, st: Map<Seq<u8>, Seq<u8>>)
    requires
        dec_value(input, MAX_DEPTH as nat) matches ParseOutcome::Done { v, used }
            && spec_parse_command(v) is Err && 1 <= used <= input.len(),
    ensures
        ({
            let v = dec_value(input, MAX_DEPTH as nat)->Done_v;
            let used = dec_value(input, MAX_DEPTH as nat)->Done_used;
            let ce = spec_parse_command(v)->Err_0;
            let rest = session(input.skip(used), st);
            session(input, st) == (error_frame(KiwiError::CommandError(ce)) + rest.0, rest.1)
        }),
{
}

/// The per-connection server: parser, executor, response writer and error
/// router, run as one loop.
pub struct RESP3Server<R: BytesReader, E: Engine, W: BytesWriter, H: ErrorHandler<W>> {
    parser: KiwiCommandParser<R>,
    processor: KiwiCommandProcessor<E>,
    writer: KiwiResponseWriter<W>,
    error_handler: H,
}

impl<R: BytesReader, E: Engine, W: BytesWriter, H: ErrorHandler<W>> RESP3Server<R, E, W, H> {
    /// The bytes not yet consumed.
    pub closed spec fn data(&self) -> Seq<u8> {
        self.parser.data()
    }

    /// The mapping the store holds.
    pub closed spec fn store(&self) -> Map<Seq<u8>, Seq<u8>> {
        self.processor.store()
    }

    /// Everything written so far.
    pub closed spec fn sink(&self) -> Seq<u8> {
        self.writer.sink()
    }

    /// Whether the response sink always accepts writes.
    pub closed spec fn reliable(&self) -> bool {
        self.writer.reliable()
    }

    /// A server from its four parts.
    pub fn new(
        parser: KiwiCommandParser<R>,
        processor: KiwiCommandProcessor<E>,
        writer: KiwiResponseWriter<W>,
        error_handler: H,
    ) -> (r: Self)
        ensures
            r.data() == parser.data(),
            r.store() == processor.store(),
            r.sink() == writer.sink(),
            r.reliable() == writer.reliable(),
    {
        Self { parser, processor, writer, error_handler }
    }

    /// The response writer, for reading back what was written.
    pub fn writer_ref(&self) -> (r: &KiwiResponseWriter<W>)
        ensures
            r.sink() == self.sink(),
    {
        &self.writer
    }

    /// Read one frame, execute it, and write the response.
    fn run_once(&mut self) -> (r: Result<(), KiwiError>)
        requires
            old(self).data().len() <= usize::MAX,
        ensures
            old(self).reliable() ==> final(self).reliable(),
            match dec_value(old(self).data(), MAX_DEPTH as nat) {
                ParseOutcome::Incomplete => {
                    &&& r == Result::<(), KiwiError>::Err(
                        KiwiError::ParseError(ParseError::ConnectionClosed),
                    )
                    &&& final(self).sink() == old(self).sink()
                    &&& final(self).store() == old(self).store()
                },
                ParseOutcome::Fail { e, used } => {
                    &&& r == Result::<(), KiwiError>::Err(KiwiError::ParseError(e))
                    &&& final(self).data() == old(self).data().skip(used)
                    &&& final(self).sink() == old(self).sink()
                    &&& final(self).store() == old(self).store()
                },
                ParseOutcome::Done { v, used } => {
                    &&& final(self).data() == old(self).data().skip(used)
                    &&& match spec_parse_command(v) {
                        Result::Err(ce) => {
                            &&& r == Result::<(), KiwiError>::Err(KiwiError::CommandError(ce))
                            &&& final(self).sink() == old(self).sink()
                            &&& final(self).store() == old(self).store()
                        },
                        Result::Ok(c) => {
                            let (pr, st1) = process_model(c, old(self).store());
                            &&& final(self).store() == st1
                            &&& match pr {
                                Result::Err(e2) => {
                                    &&& r == Result::<(), KiwiError>::Err(e2)
                                    &&& final(self).sink() == old(self).sink()
                                },
                                Result::Ok(rm) => {
                                    match r {
                                        Result::Ok(_) => final(self).sink() == old(self).sink()
                                            + response_frame(rm),
                                        Result::Err(e3) => {
                                            &&& e3 is ConnectionError
                                            &&& !old(self).reliable()
                                        },
                                    }
                                },
                            }
                        },
                    }
                },
            },
    {
        let command = match self.parser.parse_next_command() {
            Result::Ok(c) => c,
            Result::Err(e) => {
                return Result::Err(e);
            },
        };
        let response = match self.processor.process(command) {
            Result::Ok(resp) => resp,
            Result::Err(e) => {
                return Result::Err(e);
            },
        };
        match self.writer.write(response) {
            Result::Ok(_) => Result::Ok(()),
            Result::Err(e) => Result::Err(e),
        }
    }

    /// Serve the connection to its end: frames are answered in order, and
    /// the loop stops at the first incomplete frame or terminal error. On a
    /// reliable sink the bytes written and the store left behind are exactly
    /// the connection's session.
    #[verifier::loop_isolation(false)]
    pub fn run(&mut self)
        requires
            old(self).data().len() <= usize::MAX,
        ensures
            old(self).reliable() ==> ({
                let full = session(old(self).data(), old(self).store());
                &&& final(self).sink() == old(self).sink() + full.0
                &&& final(self).store() == full.1
            }),
    {
        loop
            invariant
                self.data().len() <= usize::MAX,
                old(self).reliable() ==> self.reliable(),
                old(self).reliable() ==> ({
                    let full = session(old(self).data(), old(self).store());
                    let rest = session(self.data(), self.store());
                    &&& old(self).sink() + full.0 == self.sink() + rest.0
                    &&& full.1 == rest.1
                }),
            decreases self.data().len(),
        {
            let ghost d0 = self.data();
            let ghost st0 = self.store();
            let ghost sk0 = self.sink();
            proof {
                lemma_dec_value_used(d0, MAX_DEPTH as nat);
            }
            let run_result = self.run_once();
            match run_result {
                Result::Ok(_) => {},
                Result::Err(err) => {
                    let handled = self.error_handler.handle_error(&mut self.writer, err);
                    match handled {
                        Option::None => {},
                        Option::Some(_) => {
                            proof {
                                if old(self).reliable() {
                                    assert(!recoverable(err));
                                }
                            }
                            return;
                        },
                    }
                },
            }
        }
    }
}

/// One step of a connection: what the server does with the bytes of `buf`
/// from `pos` on.
pub enum SessionStep {
    /// A complete frame was handled: the reply to write, and how many bytes
    /// of input it consumed.
    Reply { reply: Vec<u8>, used: usize },
    /// The bytes end before the next frame does.
    NeedMore,
    /// A terminal error: the connection is to be dropped without a reply.
    Closed,
}

/// Handle the next frame of `buf` from `pos` on against `engine`: decode it,
/// run its command, and hand back the encoded reply.
pub fn session_step(engine: &mut InMemoryEngine, buf: &[u8], pos: usize) -> (r: SessionStep)
    requires
        pos <= buf@.len(),
    ensures
        ({
            let d = buf@.skip(pos as int);
            match dec_value(d, MAX_DEPTH as nat) {
                ParseOutcome::Incomplete => {
                    &&& r is NeedMore
                    &&& final(engine).store() == old(engine).store()
                },
                ParseOutcome::Fail { e, used } => {
                    &&& r matches SessionStep::Reply { reply, used: u } && reply@ == error_frame(
                        KiwiError::ParseError(e),
                    ) && u == used
                    &&& final(engine).store() == old(engine).store()
                },
                ParseOutcome::Done { v, used } => match spec_parse_command(v) {
                    Result::Err(ce) => {
                        &&& r matches SessionStep::Reply { reply, used: u } && reply@
                            == error_frame(KiwiError::CommandError(ce)) && u == used
                        &&& final(engine).store() == old(engine).store()
                    },
                    Result::Ok(c) => {
                        let (pr, st1) = process_model(c, old(engine).store());
                        &&& final(engine).store() == st1
                        &&& match pr {
                            Result::Ok(rm) => r matches SessionStep::Reply { reply, used: u }
                                && reply@ == response_frame(rm) && u == used,
                            Result::Err(e2) => {
                                if recoverable(e2) {
                                    r matches SessionStep::Reply { reply, used: u } && reply@
                                        == error_frame(e2) && u == used
                                } else {
                                    r is Closed
                                }
                            },
                        }
                    },
                },
            }
        }),
{
    let tail: &[u8] = &buf[pos..buf.len()];
    proof {
        assert(tail@ =~= buf@.skip(pos as int));
    }
    let mut rd = SliceReader::new(tail);
    proof {
        lemma_dec_value_used(tail@, MAX_DEPTH as nat);
        crate::decode::lemma_dec_fail_recoverable(tail@, MAX_DEPTH as nat);
    }
    let value = match Value::from_bytes(&mut rd) {
        Result::Ok(v) => v,
        Result::Err(e) => {
            match e {
                ParseError::ConnectionClosed => {
                    return SessionStep::NeedMore;
                },
                _ => {
                    let used = rd.position();
                    proof {
                        match dec_value(tail@, MAX_DEPTH as nat) {
                            ParseOutcome::Fail { e: e0, used: u0 } => {
                                assert(rd.data() == tail@.skip(u0));
                                assert(rd.data() == rd.full().skip(used as int));
                                assert(tail@.skip(u0).len() == tail@.len() - u0);
                                assert(tail@.skip(used as int).len() == tail@.len() - used);
                            },
                            _ => {},
                        }
                    }
                    let reply = crate::encode::simple_error_to_bytes(e.message().as_slice());
                    return SessionStep::Reply { reply, used };
                },
            }
        },
    };
    let used = rd.position();
    proof {
        match dec_value(tail@, MAX_DEPTH as nat) {
            ParseOutcome::Done { v: v0, used: u0 } => {
                assert(rd.data() == tail@.skip(u0));
                assert(rd.data() == rd.full().skip(used as int));
                assert(tail@.skip(u0).len() == tail@.len() - u0);
                assert(tail@.skip(used as int).len() == tail@.len() - used);
            },
            _ => {},
        }
    }
    let command = match parse_command_from_types(value) {
        Result::Ok(c) => c,
        Result::Err(ce) => {
            let reply = crate::encode::simple_error_to_bytes(ce.message().as_slice());
            return SessionStep::Reply { reply, used };
        },
    };
    let response = match crate::processor::execute_command(engine, command) {
        Result::Ok(resp) => resp,
        Result::Err(e2) => {
            match e2 {
                KiwiError::ParseError(pe) => {
                    match pe {
                        ParseError::ConnectionClosed => {
                            return SessionStep::Closed;
                        },
                        ParseError::ConnectionError => {
                            return SessionStep::Closed;
                        },
                        _ => {
                            let reply = crate::encode::simple_error_to_bytes(
                                pe.message().as_slice(),
                            );
                            return SessionStep::Reply { reply, used };
                        },
                    }
                },
                _ => {
                    return SessionStep::Closed;
                },
            }
        },
    };
    let reply = response.to_types().to_bytes();
    SessionStep::Reply { reply, used }
}

} // verus!
