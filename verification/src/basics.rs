//! Connection identity, per-request context, and the wire envelope: the
//! request frame and the tagged union of response frames, with their
//! mathematical models and the builders every error response goes through.
use crate::error_code::ErrorCode;
use crate::json::{obj_lookup, JsonModel, JsonValue};
use crate::text::{dec_str_of, u64_to_dec};
use vstd::prelude::*;

verus! {

pub type ConnectionId = u32;

/// Severity of a log message forwarded to a connection.
#[derive(Clone, Copy, Debug, PartialEq, Eq, Structural)]
pub enum LogLevel {
    Error,
    Warn,
    Info,
    Debug,
    Trace,
}

/// Per-session identity and auth state, created once per accepted channel.
/// `user_id` and `role` are written exactly once by the auth path.
#[derive(Debug)]
pub struct Connection {
    pub connection_id: ConnectionId,
    pub user_id: i64,
    pub role: u32,
    pub address: String,
    pub log_id: u64,
}

impl Connection {
    pub fn get_user_id(&self) -> (r: i64)
        ensures
            r == self.user_id,
    {
        self.user_id
    }
}

/// Immutable per-invocation tuple, constructed fresh for every inbound
/// message and never mutated afterwards.
#[derive(Clone, Copy, Debug)]
pub struct RequestContext {
    pub connection_id: ConnectionId,
    pub user_id: i64,
    pub seq: u32,
    pub method: u32,
    pub log_id: u64,
}

/// The request envelope: `{method, seq, params}`.
#[derive(Debug, PartialEq, Eq)]
pub struct WsRequest {
    pub method: u32,
    pub seq: u32,
    pub params: JsonValue,
}

/// Success reply to one request.
#[derive(Debug, PartialEq, Eq)]
pub struct WsSuccessResponse {
    pub method: u32,
    pub seq: u32,
    pub params: JsonValue,
}

/// One publish delivery to one subscriber, carrying that subscriber's
/// stream sequence number.
#[derive(Debug, PartialEq, Eq)]
pub struct WsStreamResponse {
    pub method: u32,
    pub stream_seq: u32,
    pub resource: String,
    pub data: JsonValue,
}

/// Error reply: a taxonomy code, the request's sequence number, and the
/// connection's correlation id.
#[derive(Debug, PartialEq, Eq)]
pub struct WsResponseError {
    pub method: u32,
    pub code: u32,
    pub seq: u32,
    pub log_id: String,
    pub params: JsonValue,
}

/// A log line forwarded to the connection.
#[derive(Debug, PartialEq, Eq)]
pub struct WsLogResponse {
    pub seq: u32,
    pub log_id: u64,
    pub level: LogLevel,
    pub message: String,
}

/// Acknowledgement without payload.
#[derive(Debug, PartialEq, Eq)]
pub struct WsForwardedResponse {
    pub method: u32,
    pub seq: u32,
}

/// The tagged union of everything a connection can be sent. `Close` is the
/// sentinel that ends the connection.
#[derive(Debug, PartialEq, Eq)]
pub enum WsResponse {
    Immediate(WsSuccessResponse),
    Stream(WsStreamResponse),
    Error(WsResponseError),
    Log(WsLogResponse),
    Forwarded(WsForwardedResponse),
    Close,
}

/// The mathematical model of a `WsResponse`. (`log_id` is already rendered
/// in decimal in an `Error`, as on the wire, and still numeric in a `Log`.)
#[allow(inconsistent_fields)]
pub enum WsResponseModel {
    Immediate { method: u32, seq: u32, params: JsonModel },
    Stream { method: u32, stream_seq: u32, resource: Seq<char>, data: JsonModel },
    Error { method: u32, code: u32, seq: u32, log_id: Seq<char>, params: JsonModel },
    Log { seq: u32, log_id: u64, level: LogLevel, message: Seq<char> },
    Forwarded { method: u32, seq: u32 },
    Close,
}

impl View for WsResponse {
    type V = WsResponseModel;

    open spec fn view(&self) -> WsResponseModel {
        match self {
            WsResponse::Immediate(r) => WsResponseModel::Immediate {
                method: r.method,
                seq: r.seq,
                params: r.params@,
            },
            WsResponse::Stream(r) => WsResponseModel::Stream {
                method: r.method,
                stream_seq: r.stream_seq,
                resource: r.resource@,
                data: r.data@,
            },
            WsResponse::Error(r) => WsResponseModel::Error {
                method: r.method,
                code: r.code,
                seq: r.seq,
                log_id: r.log_id@,
                params: r.params@,
            },
            WsResponse::Log(r) => WsResponseModel::Log {
                seq: r.seq,
                log_id: r.log_id,
                level: r.level,
                message: r.message@,
            },
            WsResponse::Forwarded(r) => WsResponseModel::Forwarded {
                method: r.method,
                seq: r.seq,
            },
            WsResponse::Close => WsResponseModel::Close,
        }
    }
}

/// The error response a request error is reported as: the taxonomy code,
/// the offending request's method and sequence number, the connection's
/// log id in decimal, and the given payload.
pub open spec fn request_error_model(
    ctx: RequestContext,
    code: u32,
    params: JsonModel,
) -> WsResponseModel {
    WsResponseModel::Error {
        method: ctx.method,
        code: code,
        seq: ctx.seq,
        log_id: dec_str_of(ctx.log_id as nat),
        params: params,
    }
}

/// Build the error response for a request-level failure, carrying the given
/// payload verbatim.
pub fn request_error_to_resp(ctx: &RequestContext, code: ErrorCode, params: JsonValue) -> (r:
    WsResponse)
    ensures
        r@ == request_error_model(*ctx, code.code, params@),
{
    WsResponse::Error(
        WsResponseError {
            method: ctx.method,
            code: code.to_u32(),
            seq: ctx.seq,
            log_id: u64_to_dec(ctx.log_id),
            params,
        },
    )
}

/// Build the error response for an internal failure: the cause is never put
/// on the wire, only the taxonomy code and the log id for correlation.
pub fn internal_error_to_resp(ctx: &RequestContext, code: ErrorCode) -> (r: WsResponse)
    ensures
        r@ == request_error_model(*ctx, code.code, JsonModel::Null),
{
    WsResponse::Error(
        WsResponseError {
            method: ctx.method,
            code: code.to_u32(),
            seq: ctx.seq,
            log_id: u64_to_dec(ctx.log_id),
            params: JsonValue::Null,
        },
    )
}

/// Law: every error response carries a non-empty log id for support
/// correlation, whatever the context, code and payload.
pub proof fn lemma_error_log_id_nonempty(ctx: RequestContext, code: u32, params: JsonModel)
    ensures
        request_error_model(ctx, code, params) matches WsResponseModel::Error { log_id, .. }
            && log_id.len() >= 1,
{
    crate::text::lemma_dec_str_nonempty(ctx.log_id as nat);
}

/// The envelope denoted by a JSON value: an object whose `method` and `seq`
/// fields are unsigned 32-bit integers and which carries a `params` field.
pub open spec fn envelope_of(m: JsonModel) -> Option<(u32, u32, JsonModel)> {
    match m {
        JsonModel::Obj(fields) => {
            let method = obj_lookup(fields, "method"@);
            let seq = obj_lookup(fields, "seq"@);
            let params = obj_lookup(fields, "params"@);
            match (method, seq, params) {
                (Some(JsonModel::Int(mv)), Some(JsonModel::Int(sv)), Some(p)) => {
                    if 0 <= mv <= u32::MAX && 0 <= sv <= u32::MAX {
                        Some((mv as u32, sv as u32, p))
                    } else {
                        None
                    }
                },
                _ => None,
            }
        },
        _ => None,
    }
}

/// Read the request envelope out of a decoded JSON value.
pub fn decode_envelope(v: &JsonValue) -> (r: Option<WsRequest>)
    ensures
        match r {
            Some(req) => envelope_of(v@) == Some((req.method, req.seq, req.params@)),
            None => envelope_of(v@) is None,
        },
{
    match v {
        JsonValue::Obj(fields) => {
            let method = match crate::json::lookup_field(fields, "method") {
                Some(JsonValue::Int(n)) => {
                    if 0 <= *n && *n <= 4294967295i64 {
                        *n as u32
                    } else {
                        return None;
                    }
                },
                _ => {
                    return None;
                },
            };
            let seq = match crate::json::lookup_field(fields, "seq") {
                Some(JsonValue::Int(n)) => {
                    if 0 <= *n && *n <= 4294967295i64 {
                        *n as u32
                    } else {
                        return None;
                    }
                },
                _ => {
                    return None;
                },
            };
            let params = match crate::json::lookup_field(fields, "params") {
                Some(p) => p.duplicate(),
                None => {
                    return None;
                },
            };
            Some(WsRequest { method, seq, params })
        },
        _ => None,
    }
}

} // verus!
