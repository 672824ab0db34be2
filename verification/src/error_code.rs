//! The closed error taxonomy surfaced to clients, and the domain error type
//! handlers raise to signal expected failures.
use crate::json::{JsonModel, JsonValue};
use crate::text::parse_base36_u32_spec;
use vstd::prelude::*;

verus! {

/// Malformed input: bad JSON or a schema-mismatched payload.
pub const ERROR_CODE_BAD_REQUEST: u32 = 100400;

/// Anything unexpected: the client sees only this code and a log id.
pub const ERROR_CODE_INTERNAL_SERVER_ERROR: u32 = 100500;

/// No handler is registered for the requested method code.
pub const ERROR_CODE_NOT_IMPLEMENTED: u32 = 100501;

/// A database failure whose engine status code could not be decoded.
pub const ERROR_CODE_DATABASE_ERROR: u32 = 100601;

/// Numeric code of the closed error taxonomy, carried verbatim from the
/// classification site to the wire.
#[derive(Clone, Copy, Debug, PartialEq, Eq, Structural, Hash)]
pub struct ErrorCode {
    pub code: u32,
}

impl ErrorCode {
    pub fn new(code: u32) -> (r: Self)
        ensures
            r.code == code,
    {
        Self { code }
    }

    pub fn to_u32(self) -> (r: u32)
        ensures
            r == self.code,
    {
        self.code
    }
}

/// Failure sentinel for fire-and-forget handlers: a handler that fails with
/// this value has its response suppressed entirely.
#[derive(Debug)]
pub struct NoResp;

/// A domain error raised by a handler: an error code of the taxonomy and a
/// payload forwarded verbatim to the client.
#[derive(Debug)]
pub struct CustomError {
    pub code: ErrorCode,
    pub params: JsonValue,
}

impl CustomError {
    pub fn new(code: ErrorCode, params: JsonValue) -> (r: Self)
        ensures
            r.code == code,
            r.params@ == params@,
    {
        Self { code, params }
    }

    /// Decode a database engine status code (radix-36) into a domain error
    /// whose payload is the failure message.
    pub fn from_sql_error(err: &str, msg: &str) -> (r: Option<CustomError>)
        ensures
            match r {
                Some(e) => parse_base36_u32_spec(err@) == Some(e.code.code) && e.params@
                    == JsonModel::Str(msg@),
                None => parse_base36_u32_spec(err@) is None,
            },
    {
        match crate::text::parse_base36_u32(err) {
            Some(code) => Some(CustomError {
                code: ErrorCode { code },
                params: JsonValue::Str(String::from_str(msg)),
            }),
            None => None,
        }
    }
}

} // verus!
