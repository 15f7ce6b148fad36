//! The error taxonomy: parse errors, command errors, and the connection-level
//! error that routes them, with the textual rendering each carries onto the
//! wire.

use vstd::prelude::*;

verus! {

/// A failure while decoding one frame from the wire.
#[derive(Debug, Clone, Copy, PartialEq, Eq, Structural)]
pub enum ParseError {
    /// An integer or length header did not parse.
    ExpectedNumber,
    /// A textual payload was not valid UTF-8.
    WrongStringByteSequence,
    /// A big-number header did not parse.
    WrongBigNumberFormat,
    /// A double header did not parse.
    WrongFloatingPointFormat,
    /// A boolean header held neither `t` nor `f`.
    ExpectedBool,
    /// A bulk payload was not followed by CRLF.
    MissingSeparator,
    /// An unknown type prefix, carried in the error.
    UnsupportedDataType(u8),
    /// The peer closed the connection, or a frame is still incomplete.
    ConnectionClosed,
    /// The transport failed.
    ConnectionError,
    /// Aggregates were nested beyond the supported depth.
    NestingTooDeep,
}

/// A failure while lifting a decoded value into a command.
#[derive(Debug, Clone, Copy, PartialEq, Eq, Structural)]
pub enum CommandError {
    UnsupportedCommand,
    WrongNumberOfArguments,
    WrongArgumentType,
}

/// Any failure the connection driver routes.
#[derive(Debug, Clone, Copy, PartialEq, Eq, Structural)]
pub enum KiwiError {
    ParseError(ParseError),
    CommandError(CommandError),
    ConnectionError,
    ConnectionClosed,
}

/// The rendering of a parse error.
pub open spec fn parse_error_text(e: ParseError) -> Seq<u8> {
    match e {
        ParseError::ExpectedNumber => seq![69u8, 120u8, 112u8, 101u8, 99u8, 116u8, 101u8, 100u8, 32u8, 110u8, 117u8, 109u8, 98u8, 101u8, 114u8],
        ParseError::WrongStringByteSequence => seq![87u8, 114u8, 111u8, 110u8, 103u8, 32u8, 115u8, 116u8, 114u8, 105u8, 110u8, 103u8, 32u8, 98u8, 121u8, 116u8, 101u8, 32u8, 115u8, 101u8, 113u8, 117u8, 101u8, 110u8, 99u8, 101u8],
        ParseError::WrongBigNumberFormat => seq![87u8, 114u8, 111u8, 110u8, 103u8, 32u8, 98u8, 105u8, 103u8, 32u8, 110u8, 117u8, 109u8, 98u8, 101u8, 114u8, 32u8, 102u8, 111u8, 114u8, 109u8, 97u8, 116u8],
        ParseError::WrongFloatingPointFormat => seq![87u8, 114u8, 111u8, 110u8, 103u8, 32u8, 102u8, 108u8, 111u8, 97u8, 116u8, 105u8, 110u8, 103u8, 32u8, 112u8, 111u8, 105u8, 110u8, 116u8, 32u8, 102u8, 111u8, 114u8, 109u8, 97u8, 116u8],
        ParseError::ExpectedBool => seq![69u8, 120u8, 112u8, 101u8, 99u8, 116u8, 101u8, 100u8, 32u8, 98u8, 111u8, 111u8, 108u8, 101u8, 97u8, 110u8],
        ParseError::MissingSeparator => seq![77u8, 105u8, 115u8, 115u8, 105u8, 110u8, 103u8, 32u8, 67u8, 82u8, 76u8, 70u8, 32u8, 115u8, 101u8, 112u8, 97u8, 114u8, 97u8, 116u8, 111u8, 114u8],
        ParseError::UnsupportedDataType(_) => seq![85u8, 110u8, 115u8, 117u8, 112u8, 112u8, 111u8, 114u8, 116u8, 101u8, 100u8, 32u8, 100u8, 97u8, 116u8, 97u8, 32u8, 116u8, 121u8, 112u8, 101u8],
        ParseError::ConnectionClosed => seq![67u8, 108u8, 105u8, 101u8, 110u8, 116u8, 32u8, 99u8, 108u8, 111u8, 115u8, 101u8, 100u8, 32u8, 99u8, 111u8, 110u8, 110u8, 101u8, 99u8, 116u8, 105u8, 111u8, 110u8],
        ParseError::ConnectionError => seq![67u8, 111u8, 110u8, 110u8, 101u8, 99u8, 116u8, 105u8, 111u8, 110u8, 32u8, 101u8, 114u8, 114u8, 111u8, 114u8],
        ParseError::NestingTooDeep => seq![78u8, 101u8, 115u8, 116u8, 105u8, 110u8, 103u8, 32u8, 116u8, 111u8, 111u8, 32u8, 100u8, 101u8, 101u8, 112u8],
    }
}

impl ParseError {
    /// The rendering of this error, as error frames carry it.
    pub fn message(&self) -> (r: Vec<u8>)
        ensures
            r@ == parse_error_text(*self),
    {
        match self {
        ParseError::ExpectedNumber => {
            let mut v: Vec<u8> = Vec::new();
            v.push(69);
            v.push(120);
            v.push(112);
            v.push(101);
            v.push(99);
            v.push(116);
            v.push(101);
            v.push(100);
            v.push(32);
            v.push(110);
            v.push(117);
            v.push(109);
            v.push(98);
            v.push(101);
            v.push(114);
            proof {
                assert(v@ =~= parse_error_text(*self));
            }
            v
        },
        ParseError::WrongStringByteSequence => {
            let mut v: Vec<u8> = Vec::new();
            v.push(87);
            v.push(114);
            v.push(111);
            v.push(110);
            v.push(103);
            v.push(32);
            v.push(115);
            v.push(116);
            v.push(114);
            v.push(105);
            v.push(110);
            v.push(103);
            v.push(32);
            v.push(98);
            v.push(121);
            v.push(116);
            v.push(101);
            v.push(32);
            v.push(115);
            v.push(101);
            v.push(113);
            v.push(117);
            v.push(101);
            v.push(110);
            v.push(99);
            v.push(101);
            proof {
                assert(v@ =~= parse_error_text(*self));
            }
            v
        },
        ParseError::WrongBigNumberFormat => {
            let mut v: Vec<u8> = Vec::new();
            v.push(87);
            v.push(114);
            v.push(111);
            v.push(110);
            v.push(103);
            v.push(32);
            v.push(98);
            v.push(105);
            v.push(103);
            v.push(32);
            v.push(110);
            v.push(117);
            v.push(109);
            v.push(98);
            v.push(101);
            v.push(114);
            v.push(32);
            v.push(102);
            v.push(111);
            v.push(114);
            v.push(109);
            v.push(97);
            v.push(116);
            proof {
                assert(v@ =~= parse_error_text(*self));
            }
            v
        },
        ParseError::WrongFloatingPointFormat => {
            let mut v: Vec<u8> = Vec::new();
            v.push(87);
            v.push(114);
            v.push(111);
            v.push(110);
            v.push(103);
            v.push(32);
            v.push(102);
            v.push(108);
            v.push(111);
            v.push(97);
            v.push(116);
            v.push(105);
            v.push(110);
            v.push(103);
            v.push(32);
            v.push(112);
            v.push(111);
            v.push(105);
            v.push(110);
            v.push(116);
            v.push(32);
            v.push(102);
            v.push(111);
            v.push(114);
            v.push(109);
            v.push(97);
            v.push(116);
            proof {
                assert(v@ =~= parse_error_text(*self));
            }
            v
        },
        ParseError::ExpectedBool => {
            let mut v: Vec<u8> = Vec::new();
            v.push(69);
            v.push(120);
            v.push(112);
            v.push(101);
            v.push(99);
            v.push(116);
            v.push(101);
            v.push(100);
            v.push(32);
            v.push(98);
            v.push(111);
            v.push(111);
            v.push(108);
            v.push(101);
            v.push(97);
            v.push(110);
            proof {
                assert(v@ =~= parse_error_text(*self));
            }
            v
        },
        ParseError::MissingSeparator => {
            let mut v: Vec<u8> = Vec::new();
            v.push(77);
            v.push(105);
            v.push(115);
            v.push(115);
            v.push(105);
            v.push(110);
            v.push(103);
            v.push(32);
            v.push(67);
            v.push(82);
            v.push(76);
            v.push(70);
            v.push(32);
            v.push(115);
            v.push(101);
            v.push(112);
            v.push(97);
            v.push(114);
            v.push(97);
            v.push(116);
            v.push(111);
            v.push(114);
            proof {
                assert(v@ =~= parse_error_text(*self));
            }
            v
        },
        ParseError::UnsupportedDataType(_) => {
            let mut v: Vec<u8> = Vec::new();
            v.push(85);
            v.push(110);
            v.push(115);
            v.push(117);
            v.push(112);
            v.push(112);
            v.push(111);
            v.push(114);
            v.push(116);
            v.push(101);
            v.push(100);
            v.push(32);
            v.push(100);
            v.push(97);
            v.push(116);
            v.push(97);
            v.push(32);
            v.push(116);
            v.push(121);
            v.push(112);
            v.push(101);
            proof {
                assert(v@ =~= parse_error_text(*self));
            }
            v
        },
        ParseError::ConnectionClosed => {
            let mut v: Vec<u8> = Vec::new();
            v.push(67);
            v.push(108);
            v.push(105);
            v.push(101);
            v.push(110);
            v.push(116);
            v.push(32);
            v.push(99);
            v.push(108);
            v.push(111);
            v.push(115);
            v.push(101);
            v.push(100);
            v.push(32);
            v.push(99);
            v.push(111);
            v.push(110);
            v.push(110);
            v.push(101);
            v.push(99);
            v.push(116);
            v.push(105);
            v.push(111);
            v.push(110);
            proof {
                assert(v@ =~= parse_error_text(*self));
            }
            v
        },
        ParseError::ConnectionError => {
            let mut v: Vec<u8> = Vec::new();
            v.push(67);
            v.push(111);
            v.push(110);
            v.push(110);
            v.push(101);
            v.push(99);
            v.push(116);
            v.push(105);
            v.push(111);
            v.push(110);
            v.push(32);
            v.push(101);
            v.push(114);
            v.push(114);
            v.push(111);
            v.push(114);
            proof {
                assert(v@ =~= parse_error_text(*self));
            }
            v
        },
        ParseError::NestingTooDeep => {
            let mut v: Vec<u8> = Vec::new();
            v.push(78);
            v.push(101);
            v.push(115);
            v.push(116);
            v.push(105);
            v.push(110);
            v.push(103);
            v.push(32);
            v.push(116);
            v.push(111);
            v.push(111);
            v.push(32);
            v.push(100);
            v.push(101);
            v.push(101);
            v.push(112);
            proof {
                assert(v@ =~= parse_error_text(*self));
            }
            v
        },
        }
    }
}

/// The rendering of a command error.
pub open spec fn command_error_text(e: CommandError) -> Seq<u8> {
    match e {
        CommandError::UnsupportedCommand => seq![85u8, 110u8, 115u8, 117u8, 112u8, 112u8, 111u8, 114u8, 116u8, 101u8, 100u8, 32u8, 99u8, 111u8, 109u8, 109u8, 97u8, 110u8, 100u8],
        CommandError::WrongNumberOfArguments => seq![87u8, 114u8, 111u8, 110u8, 103u8, 32u8, 110u8, 117u8, 109u8, 98u8, 101u8, 114u8, 32u8, 111u8, 102u8, 32u8, 97u8, 114u8, 103u8, 117u8, 109u8, 101u8, 110u8, 116u8, 115u8],
        CommandError::WrongArgumentType => seq![87u8, 114u8, 111u8, 110u8, 103u8, 32u8, 97u8, 114u8, 103u8, 117u8, 109u8, 101u8, 110u8, 116u8, 32u8, 116u8, 121u8, 112u8, 101u8],
    }
}

impl CommandError {
    /// The rendering of this error, as error frames carry it.
    pub fn message(&self) -> (r: Vec<u8>)
        ensures
            r@ == command_error_text(*self),
    {
        match self {
        CommandError::UnsupportedCommand => {
            let mut v: Vec<u8> = Vec::new();
            v.push(85);
            v.push(110);
            v.push(115);
            v.push(117);
            v.push(112);
            v.push(112);
            v.push(111);
            v.push(114);
            v.push(116);
            v.push(101);
            v.push(100);
            v.push(32);
            v.push(99);
            v.push(111);
            v.push(109);
            v.push(109);
            v.push(97);
            v.push(110);
            v.push(100);
            proof {
                assert(v@ =~= command_error_text(*self));
            }
            v
        },
        CommandError::WrongNumberOfArguments => {
            let mut v: Vec<u8> = Vec::new();
            v.push(87);
            v.push(114);
            v.push(111);
            v.push(110);
            v.push(103);
            v.push(32);
            v.push(110);
            v.push(117);
            v.push(109);
            v.push(98);
            v.push(101);
            v.push(114);
            v.push(32);
            v.push(111);
            v.push(102);
            v.push(32);
            v.push(97);
            v.push(114);
            v.push(103);
            v.push(117);
            v.push(109);
            v.push(101);
            v.push(110);
            v.push(116);
            v.push(115);
            proof {
                assert(v@ =~= command_error_text(*self));
            }
            v
        },
        CommandError::WrongArgumentType => {
            let mut v: Vec<u8> = Vec::new();
            v.push(87);
            v.push(114);
            v.push(111);
            v.push(110);
            v.push(103);
            v.push(32);
            v.push(97);
            v.push(114);
            v.push(103);
            v.push(117);
            v.push(109);
            v.push(101);
            v.push(110);
            v.push(116);
            v.push(32);
            v.push(116);
            v.push(121);
            v.push(112);
            v.push(101);
            proof {
                assert(v@ =~= command_error_text(*self));
            }
            v
        },
        }
    }
}

} // verus!
