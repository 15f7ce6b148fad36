//! The error router: which failures are answered to the client with an
//! error frame, and which end the connection.

use vstd::prelude::*;
use crate::value::ValueModel;
use crate::error::KiwiError;
use crate::error::parse_error_text;
use crate::error::command_error_text;
use crate::encode::encode_model;
use crate::writer::BytesWriter;
use crate::response::Response;
use crate::response::KiwiResponseWriter;
use crate::response::response_frame;
use crate::response::ResponseModel;

verus! {

/// Whether an error is answerable to the client; the rest end the
/// connection.
pub open spec fn recoverable(e: KiwiError) -> bool {
    match e {
        KiwiError::ParseError(pe) => !(pe is ConnectionClosed || pe is ConnectionError),
        KiwiError::CommandError(_) => true,
        KiwiError::ConnectionError => false,
        KiwiError::ConnectionClosed => false,
    }
}

/// The rendering a recoverable error carries in its frame.
pub open spec fn kiwi_error_text(e: KiwiError) -> Seq<u8> {
    match e {
        KiwiError::ParseError(pe) => parse_error_text(pe),
        KiwiError::CommandError(ce) => command_error_text(ce),
        _ => Seq::empty(),
    }
}

/// The simple-error frame a recoverable error puts on the wire.
pub open spec fn error_frame(e: KiwiError) -> Seq<u8> {
    encode_model(ValueModel::SimpleError(kiwi_error_text(e)))
}

/// The routing every error handler obeys: recoverable errors are written as
/// error frames and swallowed; terminal errors are handed back untouched.
pub trait ErrorHandler<W: BytesWriter> {
    fn handle_error(&self, response_writer: &mut KiwiResponseWriter<W>, error: KiwiError) -> (r:
        Option<KiwiError>)
        ensures
            if recoverable(error) {
                match r {
                    Option::None => {
                        &&& final(response_writer).sink() == old(response_writer).sink()
                            + error_frame(error)
                        &&& final(response_writer).reliable() == old(
                            response_writer,
                        ).reliable()
                    },
                    Option::Some(_) => !old(response_writer).reliable(),
                }
            } else {
                &&& r is Some
                &&& final(response_writer).sink() == old(response_writer).sink()
                &&& final(response_writer).reliable() == old(response_writer).reliable()
            },
    ;
}

/// The stock error router.
pub struct KiwiErrorHandler;

impl KiwiErrorHandler {
    /// A router.
    pub fn new() -> (r: Self) {
        Self
    }
}

impl<W: BytesWriter> ErrorHandler<W> for KiwiErrorHandler {
    fn handle_error(&self, response_writer: &mut KiwiResponseWriter<W>, error: KiwiError) -> (r:
        Option<KiwiError>) {
        let message: Vec<u8> = match &error {
            KiwiError::ParseError(pe) => {
                if matches!(pe, crate::error::ParseError::ConnectionClosed) || matches!(
                    pe,
                    crate::error::ParseError::ConnectionError,
                ) {
                    return Option::Some(KiwiError::ConnectionClosed);
                }
                pe.message()
            },
            KiwiError::CommandError(ce) => ce.message(),
            KiwiError::ConnectionError => {
                return Option::Some(KiwiError::ConnectionClosed);
            },
            KiwiError::ConnectionClosed => {
                return Option::Some(KiwiError::ConnectionClosed);
            },
        };
        let ghost fr = error_frame(error);
        match response_writer.write(Response::Error(message)) {
            Result::Ok(_) => {
                proof {
                    assert(response_frame(ResponseModel::Error(kiwi_error_text(error))) == fr);
                }
                Option::None
            },
            Result::Err(e2) => Option::Some(e2),
        }
    }
}

} // verus!
