//! The command vocabulary: lifting a decoded value into a typed command,
//! with a case-insensitive command name.

use vstd::prelude::*;
use crate::value::Value;
use crate::value::ValueModel;
use crate::value::view_of;
use crate::value::view_of_seq;
use crate::value::lemma_view_of_seq;
use crate::bytes::ascii_upper;
use crate::bytes::to_upper_bytes;
use crate::error::CommandError;
use crate::error::KiwiError;
use crate::error::ParseError;
use crate::reader::BytesReader;
use crate::decode::dec_value;
use crate::decode::ParseOutcome;
use crate::decode::MAX_DEPTH;

verus! {

/// A client request the executor understands.
pub enum KiwiCommand {
    /// Reserved; the decoder never produces it.
    Nothing,
    Ping,
    Command(Vec<u8>),
    Store { key: Value, value: Value },
    Get { key: Value },
}

/// The mathematical model of a command.
pub enum CommandModel {
    Nothing,
    Ping,
    Command(Seq<u8>),
    Store { key: ValueModel, value: ValueModel },
    Get { key: ValueModel },
}

impl View for KiwiCommand {
    type V = CommandModel;

    open spec fn view(&self) -> CommandModel {
        match self {
            KiwiCommand::Nothing => CommandModel::Nothing,
            KiwiCommand::Ping => CommandModel::Ping,
            KiwiCommand::Command(a) => CommandModel::Command(a@),
            KiwiCommand::Store { key, value } => CommandModel::Store {
                key: view_of(*key),
                value: view_of(*value),
            },
            KiwiCommand::Get { key } => CommandModel::Get { key: view_of(*key) },
        }
    }
}

/// The word `PING`.
pub open spec fn word_ping() -> Seq<u8> {
    seq![80u8, 73u8, 78u8, 71u8]
}

/// The word `COMMAND`.
pub open spec fn word_command() -> Seq<u8> {
    seq![67u8, 79u8, 77u8, 77u8, 65u8, 78u8, 68u8]
}

/// The word `GET`.
pub open spec fn word_get() -> Seq<u8> {
    seq![71u8, 69u8, 84u8]
}

/// The word `SET`.
pub open spec fn word_set() -> Seq<u8> {
    seq![83u8, 69u8, 84u8]
}

/// How a decoded value reads as a command: a non-empty array whose first
/// element is a bulk string naming the command, case-insensitively.
pub open spec fn spec_parse_command(m: ValueModel) -> Result<CommandModel, CommandError> {
    match m {
        ValueModel::Array(vs) => {
            if vs.len() == 0 {
                Result::Err(CommandError::UnsupportedCommand)
            } else {
                match vs[0] {
                    ValueModel::BulkString(name) => spec_dispatch(
                        ascii_upper(name),
                        vs.drop_first(),
                    ),
                    _ => Result::Err(CommandError::UnsupportedCommand),
                }
            }
        },
        _ => Result::Err(CommandError::UnsupportedCommand),
    }
}

/// Dispatch on the upper-cased command name.
pub open spec fn spec_dispatch(u: Seq<u8>, args: Seq<ValueModel>) -> Result<
    CommandModel,
    CommandError,
> {
    if u == word_ping() {
        Result::Ok(CommandModel::Ping)
    } else if u == word_command() {
        if args.len() != 1 {
            Result::Err(CommandError::WrongNumberOfArguments)
        } else {
            match args[0] {
                ValueModel::BulkString(a) => Result::Ok(CommandModel::Command(a)),
                _ => Result::Err(CommandError::WrongArgumentType),
            }
        }
    } else if u == word_get() {
        if args.len() != 1 {
            Result::Err(CommandError::WrongNumberOfArguments)
        } else {
            Result::Ok(CommandModel::Get { key: args[0] })
        }
    } else if u == word_set() {
        if args.len() != 2 {
            Result::Err(CommandError::WrongNumberOfArguments)
        } else {
            Result::Ok(CommandModel::Store { key: args[0], value: args[1] })
        }
    } else {
        Result::Err(CommandError::UnsupportedCommand)
    }
}

/// Case-insensitivity: two spellings of the command name that agree after
/// ASCII upper-casing make the same command of the same arguments.
pub proof fn lemma_command_case_insensitive(
    name1: Seq<u8>,
    name2: Seq<u8>,
    args: Seq<ValueModel>,
)
    requires
        ascii_upper(name1) == ascii_upper(name2),
    ensures
        spec_parse_command(ValueModel::Array(seq![ValueModel::BulkString(name1)] + args))
            == spec_parse_command(
            ValueModel::Array(seq![ValueModel::BulkString(name2)] + args),
        ),
{
    let v1 = seq![ValueModel::BulkString(name1)] + args;
    let v2 = seq![ValueModel::BulkString(name2)] + args;
    assert(v1[0] == ValueModel::BulkString(name1));
    assert(v2[0] == ValueModel::BulkString(name2));
    assert(v1.drop_first() =~= args);
    assert(v2.drop_first() =~= args);
}

/// Whether `u` spells `PING`.
fn is_word_ping(u: &Vec<u8>) -> (r: bool)
    ensures
        r == (u@ == word_ping()),
{
    let r = u.len() == 4 && u[0] == 80 && u[1] == 73 && u[2] == 78 && u[3] == 71;
    proof {
        if r {
            assert(u@ =~= word_ping());
        } else if u@ == word_ping() {
            assert(u@.len() == 4 && u@[0] == 80 && u@[1] == 73 && u@[2] == 78 && u@[3] == 71);
        }
    }
    r
}

/// Whether `u` spells `COMMAND`.
fn is_word_command(u: &Vec<u8>) -> (r: bool)
    ensures
        r == (u@ == word_command()),
{
    let r = u.len() == 7 && u[0] == 67 && u[1] == 79 && u[2] == 77 && u[3] == 77 && u[4] == 65
        && u[5] == 78 && u[6] == 68;
    proof {
        if r {
            assert(u@ =~= word_command());
        } else if u@ == word_command() {
            assert(u@.len() == 7 && u@[0] == 67 && u@[1] == 79 && u@[2] == 77 && u@[3] == 77
                && u@[4] == 65 && u@[5] == 78 && u@[6] == 68);
        }
    }
    r
}

/// Whether `u` spells `GET`.
fn is_word_get(u: &Vec<u8>) -> (r: bool)
    ensures
        r == (u@ == word_get()),
{
    let r = u.len() == 3 && u[0] == 71 && u[1] == 69 && u[2] == 84;
    proof {
        if r {
            assert(u@ =~= word_get());
        } else if u@ == word_get() {
            assert(u@.len() == 3 && u@[0] == 71 && u@[1] == 69 && u@[2] == 84);
        }
    }
    r
}

/// Whether `u` spells `SET`.
fn is_word_set(u: &Vec<u8>) -> (r: bool)
    ensures
        r == (u@ == word_set()),
{
    let r = u.len() == 3 && u[0] == 83 && u[1] == 69 && u[2] == 84;
    proof {
        if r {
            assert(u@ =~= word_set());
        } else if u@ == word_set() {
            assert(u@.len() == 3 && u@[0] == 83 && u@[1] == 69 && u@[2] == 84);
        }
    }
    r
}

impl KiwiCommand {
    /// Build the command named by the upper-cased `name` from `args`.
    pub fn parse_command(name: &Vec<u8>, mut args: Vec<Value>) -> (r: Result<
        KiwiCommand,
        CommandError,
    >)
        ensures
            match spec_dispatch(ascii_upper(name@), view_of_seq(args@)) {
                Result::Ok(c) => r matches Result::Ok(cmd) && cmd@ == c,
                Result::Err(e) => r == Result::<KiwiCommand, CommandError>::Err(e),
            },
    {
        let ghost args0 = args@;
        let upper = to_upper_bytes(name.as_slice());
        proof {
            lemma_view_of_seq(args@);
        }
        if is_word_ping(&upper) {
            Result::Ok(KiwiCommand::Ping)
        } else if is_word_command(&upper) {
            if args.len() != 1 {
                return Result::Err(CommandError::WrongNumberOfArguments);
            }
            let first = args.remove(0);
            match first {
                Value::BulkString(a) => Result::Ok(KiwiCommand::Command(a)),
                _ => Result::Err(CommandError::WrongArgumentType),
            }
        } else if is_word_get(&upper) {
            if args.len() != 1 {
                return Result::Err(CommandError::WrongNumberOfArguments);
            }
            let key = args.remove(0);
            Result::Ok(KiwiCommand::Get { key })
        } else if is_word_set(&upper) {
            if args.len() != 2 {
                return Result::Err(CommandError::WrongNumberOfArguments);
            }
            let key = args.remove(0);
            proof {
                assert(args@ =~= args0.drop_first());
            }
            let value = args.remove(0);
            proof {
                assert(view_of_seq(args0)[0] == view_of(key));
                assert(view_of_seq(args0)[1] == view_of(value)) by {
                    assert(value == args0.drop_first()[0]);
                }
            }
            Result::Ok(KiwiCommand::Store { key, value })
        } else {
            Result::Err(CommandError::UnsupportedCommand)
        }
    }
}

/// Lift a decoded value into a command.
pub fn parse_command_from_types(types: Value) -> (r: Result<KiwiCommand, CommandError>)
    ensures
        match spec_parse_command(view_of(types)) {
            Result::Ok(c) => r matches Result::Ok(cmd) && cmd@ == c,
            Result::Err(e) => r == Result::<KiwiCommand, CommandError>::Err(e),
        },
{
    match types {
        Value::Array(values) => parse_array_command(values),
        _ => Result::Err(CommandError::UnsupportedCommand),
    }
}

/// Lift the elements of a command array into a command.
fn parse_array_command(mut args: Vec<Value>) -> (r: Result<KiwiCommand, CommandError>)
    ensures
        match spec_parse_command(ValueModel::Array(view_of_seq(args@))) {
            Result::Ok(c) => r matches Result::Ok(cmd) && cmd@ == c,
            Result::Err(e) => r == Result::<KiwiCommand, CommandError>::Err(e),
        },
{
    let ghost args0 = args@;
    proof {
        lemma_view_of_seq(args@);
    }
    if args.len() == 0 {
        return Result::Err(CommandError::UnsupportedCommand);
    }
    let command_name = args.remove(0);
    proof {
        assert(args@ =~= args0.drop_first());
        lemma_view_of_seq(args@);
        lemma_view_of_seq(args0);
        assert(view_of_seq(args@) =~= view_of_seq(args0).drop_first());
        assert(view_of_seq(args0)[0] == view_of(command_name));
    }
    match command_name {
        Value::BulkString(name) => KiwiCommand::parse_command(&name, args),
        _ => Result::Err(CommandError::UnsupportedCommand),
    }
}

/// What parsing the next command from a byte stream means: decode one frame,
/// then read it as a command; frame errors come back as parse errors.
pub open spec fn next_command_post(
    pre: Seq<u8>,
    post: Seq<u8>,
    r: Result<KiwiCommand, KiwiError>,
) -> bool {
    match dec_value(pre, MAX_DEPTH as nat) {
        ParseOutcome::Done { v, used } => {
            &&& post == pre.skip(used)
            &&& match spec_parse_command(v) {
                Result::Ok(c) => r matches Result::Ok(cmd) && cmd@ == c,
                Result::Err(ce) => r == Result::<KiwiCommand, KiwiError>::Err(
                    KiwiError::CommandError(ce),
                ),
            }
        },
        ParseOutcome::Incomplete => r == Result::<KiwiCommand, KiwiError>::Err(
            KiwiError::ParseError(ParseError::ConnectionClosed),
        ),
        ParseOutcome::Fail { e, used } => {
            &&& r == Result::<KiwiCommand, KiwiError>::Err(KiwiError::ParseError(e))
            &&& post == pre.skip(used)
        },
    }
}

/// The command parser: a reader, and the lifting of each decoded frame.
pub struct KiwiCommandParser<R: BytesReader> {
    reader: R,
}

impl<R: BytesReader> KiwiCommandParser<R> {
    /// The bytes not yet consumed.
    pub closed spec fn data(&self) -> Seq<u8> {
        self.reader.data()
    }

    /// A parser over `bytes_reader`.
    pub fn new(bytes_reader: R) -> (r: Self)
        ensures
            r.data() == bytes_reader.data(),
    {
        Self { reader: bytes_reader }
    }

    /// Decode the next frame and lift it into a command.
    pub fn parse_next_command(&mut self) -> (r: Result<KiwiCommand, KiwiError>)
        requires
            old(self).data().len() <= usize::MAX,
        ensures
            next_command_post(old(self).data(), final(self).data(), r),
    {
        let types = match Value::from_bytes(&mut self.reader) {
            Result::Ok(v) => v,
            Result::Err(e) => {
                return Result::Err(KiwiError::ParseError(e));
            },
        };
        match parse_command_from_types(types) {
            Result::Ok(cmd) => Result::Ok(cmd),
            Result::Err(ce) => Result::Err(KiwiError::CommandError(ce)),
        }
    }
}

} // verus!
