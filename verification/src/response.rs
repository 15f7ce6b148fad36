//! Responses: what the executor answers, its projection onto a RESP3 value,
//! and the writer that puts encoded responses on a byte sink.

use vstd::prelude::*;
use crate::value::Value;
use crate::value::ValueModel;
use crate::error::KiwiError;
use crate::encode::encode_model;
use crate::writer::BytesWriter;

verus! {

/// The executor's answer to one command.
pub enum Response {
    /// Plain success, written as `+OK`.
    Okay,
    /// The answer to a ping, written as `+PONG`.
    Pong,
    /// A value read from the store.
    Value(Value),
    /// A recoverable error, written as a simple error frame.
    Error(Vec<u8>),
    /// Absence, written as the null frame.
    Null,
}

/// The mathematical model of a response.
pub enum ResponseModel {
    Okay,
    Pong,
    Value(ValueModel),
    Error(Seq<u8>),
    Null,
}

impl View for Response {
    type V = ResponseModel;

    open spec fn view(&self) -> ResponseModel {
        match self {
            Response::Okay => ResponseModel::Okay,
            Response::Pong => ResponseModel::Pong,
            Response::Value(v) => ResponseModel::Value(crate::value::view_of(*v)),
            Response::Error(m) => ResponseModel::Error(m@),
            Response::Null => ResponseModel::Null,
        }
    }
}

/// The word `OK`.
pub open spec fn word_ok() -> Seq<u8> {
    seq![79u8, 75u8]
}

/// The word `PONG`.
pub open spec fn word_pong() -> Seq<u8> {
    seq![80u8, 79u8, 78u8, 71u8]
}

/// The value a response projects to on the wire.
pub open spec fn response_value_of(r: ResponseModel) -> ValueModel {
    match r {
        ResponseModel::Okay => ValueModel::SimpleString(word_ok()),
        ResponseModel::Pong => ValueModel::SimpleString(word_pong()),
        ResponseModel::Value(v) => v,
        ResponseModel::Error(m) => ValueModel::SimpleError(m),
        ResponseModel::Null => ValueModel::Null,
    }
}

/// The wire frame of a response.
pub open spec fn response_frame(r: ResponseModel) -> Seq<u8> {
    encode_model(response_value_of(r))
}

impl Response {
    /// The value this response puts on the wire.
    pub fn to_types(self) -> (v: Value)
        ensures
            crate::value::view_of(v) == response_value_of(self@),
    {
        match self {
            Response::Okay => {
                let mut p: Vec<u8> = Vec::new();
                p.push(79);
                p.push(75);
                proof {
                    assert(p@ =~= word_ok());
                }
                Value::SimpleString(p)
            },
            Response::Pong => {
                let mut p: Vec<u8> = Vec::new();
                p.push(80);
                p.push(79);
                p.push(78);
                p.push(71);
                proof {
                    assert(p@ =~= word_pong());
                }
                Value::SimpleString(p)
            },
            Response::Value(v) => v,
            Response::Error(m) => Value::SimpleError(m),
            Response::Null => Value::Null,
        }
    }
}

/// The response writer: encodes a response and hands the frame to the sink
/// in one write.
pub struct KiwiResponseWriter<W: BytesWriter> {
    writer: W,
}

impl<W: BytesWriter> KiwiResponseWriter<W> {
    /// Everything the underlying sink holds.
    pub closed spec fn sink(&self) -> Seq<u8> {
        self.writer.sink()
    }

    /// Whether the underlying sink always accepts writes.
    pub closed spec fn reliable(&self) -> bool {
        self.writer.reliable()
    }

    /// A response writer over `writer`.
    pub fn new(writer: W) -> (r: Self)
        ensures
            r.sink() == writer.sink(),
            r.reliable() == writer.reliable(),
    {
        Self { writer }
    }

    /// The sink written to.
    pub fn sink_ref(&self) -> (r: &W)
        ensures
            r.sink() == self.sink(),
            r.reliable() == self.reliable(),
    {
        &self.writer
    }

    /// Encode `response` and write its frame.
    pub fn write(&mut self, response: Response) -> (r: Result<(), KiwiError>)
        ensures
            match r {
                Result::Ok(_) => {
                    &&& final(self).sink() == old(self).sink() + response_frame(response@)
                    &&& final(self).reliable() == old(self).reliable()
                },
                Result::Err(e) => {
                    &&& e is ConnectionError
                    &&& !old(self).reliable()
                },
            },
    {
        let ghost rm = response@;
        let types = response.to_types();
        let bytes = types.to_bytes();
        self.writer.write_all(bytes.as_slice())
    }
}

} // verus!
