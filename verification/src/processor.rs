//! The command executor: mapping each command to a response against the
//! store, keys and values travelling through the store in their wire form.

use vstd::prelude::*;
use crate::value::Value;
use crate::value::ValueModel;
use crate::command::KiwiCommand;
use crate::command::CommandModel;
use crate::response::Response;
use crate::response::ResponseModel;
use crate::error::KiwiError;
use crate::error::ParseError;
use crate::engine::Engine;
use crate::encode::encode_model;
use crate::decode::dec_value;
use crate::decode::ParseOutcome;
use crate::decode::MAX_DEPTH;
use crate::reader::SliceReader;
use crate::laws::wf;
use crate::laws::depth_of;
use crate::laws::lemma_round_trip;

verus! {

/// What one command does: the response it earns (or the error it surfaces)
/// and the store it leaves behind.
pub open spec fn process_model(c: CommandModel, st: Map<Seq<u8>, Seq<u8>>) -> (Result<
    ResponseModel,
    KiwiError,
>, Map<Seq<u8>, Seq<u8>>) {
    match c {
        CommandModel::Nothing => (Result::Ok(ResponseModel::Okay), st),
        CommandModel::Ping => (Result::Ok(ResponseModel::Pong), st),
        CommandModel::Command(_) => (Result::Ok(ResponseModel::Okay), st),
        CommandModel::Store { key, value } => (
            Result::Ok(ResponseModel::Okay),
            st.insert(encode_model(key), encode_model(value)),
        ),
        CommandModel::Get { key } => (
            {
                let kb = encode_model(key);
                if !st.contains_key(kb) {
                    Result::Ok(ResponseModel::Null)
                } else {
                    match dec_value(st[kb], MAX_DEPTH as nat) {
                        ParseOutcome::Done { v, used } => Result::Ok(ResponseModel::Value(v)),
                        ParseOutcome::Incomplete => Result::Err(
                            KiwiError::ParseError(ParseError::ConnectionClosed),
                        ),
                        ParseOutcome::Fail { e, used } => Result::Err(KiwiError::ParseError(e)),
                    }
                }
            },
            st,
        ),
    }
}

/// The command executor over a store.
pub struct KiwiCommandProcessor<E: Engine> {
    engine: E,
}

impl<E: Engine> KiwiCommandProcessor<E> {
    /// The mapping the store holds.
    pub closed spec fn store(&self) -> Map<Seq<u8>, Seq<u8>> {
        self.engine.store()
    }

    /// An executor over `engine`.
    pub fn new(engine: E) -> (r: Self)
        ensures
            r.store() == engine.store(),
    {
        Self { engine }
    }

    /// Execute one command against the store.
    pub fn process(&mut self, command: KiwiCommand) -> (r: Result<Response, KiwiError>)
        ensures
            ({
                let (pr, st1) = process_model(command@, old(self).store());
                &&& final(self).store() == st1
                &&& match pr {
                    Result::Ok(rm) => r matches Result::Ok(resp) && resp@ == rm,
                    Result::Err(e) => r == Result::<Response, KiwiError>::Err(e),
                }
            }),
    {
        execute_command(&mut self.engine, command)
    }
}

/// Execute one command against a store.
pub fn execute_command<E: Engine>(engine: &mut E, command: KiwiCommand) -> (r: Result<
    Response,
    KiwiError,
>)
    ensures
        ({
            let (pr, st1) = process_model(command@, old(engine).store());
            &&& final(engine).store() == st1
            &&& match pr {
                Result::Ok(rm) => r matches Result::Ok(resp) && resp@ == rm,
                Result::Err(e) => r == Result::<Response, KiwiError>::Err(e),
            }
        }),
{
    match command {
        KiwiCommand::Nothing => Result::Ok(Response::Okay),
        KiwiCommand::Ping => Result::Ok(Response::Pong),
        KiwiCommand::Command(_) => Result::Ok(Response::Okay),
        KiwiCommand::Store { key, value } => {
            let kb = key.to_bytes();
            let vb = value.to_bytes();
            engine.set(kb, vb);
            Result::Ok(Response::Okay)
        },
        KiwiCommand::Get { key } => {
            let kb = key.to_bytes();
            match engine.get(&kb) {
                Option::Some(vb) => {
                    let mut rd = SliceReader::new(vb.as_slice());
                    match Value::from_bytes(&mut rd) {
                        Result::Ok(v) => Result::Ok(Response::Value(v)),
                        Result::Err(e) => Result::Err(KiwiError::ParseError(e)),
                    }
                },
                Option::None => Result::Ok(Response::Null),
            }
        },
    }
}

/// Storage round trip: after SET stores a well-formed value of supported
/// depth under a key, GET of that key answers exactly that value.
pub proof fn lemma_set_then_get(st: Map<Seq<u8>, Seq<u8>>, k: ValueModel, v: ValueModel)
    requires
        wf(v),
        depth_of(v) <= MAX_DEPTH,
    ensures
        ({
            let (pr_set, st1) = process_model(CommandModel::Store { key: k, value: v }, st);
            let (pr_get, st2) = process_model(CommandModel::Get { key: k }, st1);
            &&& pr_set == Result::<ResponseModel, KiwiError>::Ok(ResponseModel::Okay)
            &&& pr_get == Result::<ResponseModel, KiwiError>::Ok(ResponseModel::Value(v))
            &&& st2 == st1
        }),
{
    let st1 = st.insert(encode_model(k), encode_model(v));
    assert(st1.contains_key(encode_model(k)));
    assert(st1[encode_model(k)] == encode_model(v));
    lemma_round_trip(v);
}

/// Absent key: GET of a key the store does not hold answers the null
/// response and leaves the store unchanged.
pub proof fn lemma_get_absent(st: Map<Seq<u8>, Seq<u8>>, k: ValueModel)
    requires
        !st.contains_key(encode_model(k)),
    ensures
        process_model(CommandModel::Get { key: k }, st) == (
            Result::<ResponseModel, KiwiError>::Ok(ResponseModel::Null),
            st,
        ),
{
}

} // verus!
