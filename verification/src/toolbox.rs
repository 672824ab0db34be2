//! The dispatch façade: the single choke point through which every outbound
//! response flows, and the classification pipeline that turns a handler's
//! outcome into exactly one response (or none) of the closed taxonomy.
use crate::basics::{
    internal_error_to_resp, request_error_model, request_error_to_resp, ConnectionId, LogLevel,
    RequestContext, WsLogResponse, WsResponse, WsResponseModel, WsSuccessResponse,
};
use crate::conn::WebsocketStates;
use crate::error_code::{
    CustomError, ErrorCode, ERROR_CODE_DATABASE_ERROR, ERROR_CODE_INTERNAL_SERVER_ERROR,
};
use crate::json::{JsonModel, JsonValue};
use crate::text::parse_base36_u32_spec;
use vstd::prelude::*;

verus! {

/// How `send` delivers a response to a connection, selected at construction
/// time per transport.
#[derive(Clone, Copy, Debug, PartialEq, Eq, Structural)]
pub enum DeliveryStrategy {
    /// No transport installed yet: every send reports failure.
    Discard,
    /// Push onto the connection's outbound queue (persistent sockets).
    Queue,
    /// Push, then a `Close` sentinel: one response ends the connection
    /// (single-shot transports).
    QueueOneshot,
}

/// What a send appends to the target's queue under a given strategy.
pub open spec fn appended_msgs(delivery: DeliveryStrategy, m: WsResponseModel) -> Seq<
    WsResponseModel,
> {
    match delivery {
        DeliveryStrategy::Discard => Seq::empty(),
        DeliveryStrategy::Queue => seq![m],
        DeliveryStrategy::QueueOneshot => seq![m, WsResponseModel::Close],
    }
}

/// The outcome a handler's work ended in, as handed to classification.
#[derive(Debug)]
pub enum HandlerResult {
    /// The handler produced a response payload.
    Success(JsonValue),
    /// The designated no-response sentinel: suppress any reply.
    NoResponse,
    /// A database-engine failure, with the engine's status code if it
    /// carried one, and its message.
    Database { code: Option<String>, message: String },
    /// An explicit domain error: its code and payload go out verbatim.
    Domain(CustomError),
    /// Anything else; the cause stays server-side.
    Other,
}

/// The single response (or none) that a handler outcome is converted to:
/// 1. success: an `Immediate` with the payload;
/// 2. the no-response sentinel: nothing;
/// 3. a database failure: its status code decoded in radix-36, the message
///    as payload; an undecodable or missing code falls back to the generic
///    database-error code with no payload;
/// 4. a domain error: its code and payload verbatim;
/// 5. anything else: the generic internal-server-error code, no payload.
pub open spec fn classified_response(ctx: RequestContext, result: HandlerResult) -> Option<
    WsResponseModel,
> {
    match result {
        HandlerResult::Success(v) => Some(
            WsResponseModel::Immediate { method: ctx.method, seq: ctx.seq, params: v@ },
        ),
        HandlerResult::NoResponse => None,
        HandlerResult::Database { code, message } => Some(
            match code {
                Some(c) => match parse_base36_u32_spec(c@) {
                    Some(n) => request_error_model(ctx, n, JsonModel::Str(message@)),
                    None => request_error_model(ctx, ERROR_CODE_DATABASE_ERROR, JsonModel::Null),
                },
                None => request_error_model(ctx, ERROR_CODE_DATABASE_ERROR, JsonModel::Null),
            },
        ),
        HandlerResult::Domain(e) => Some(request_error_model(ctx, e.code.code, e.params@)),
        HandlerResult::Other => Some(
            request_error_model(ctx, ERROR_CODE_INTERNAL_SERVER_ERROR, JsonModel::Null),
        ),
    }
}

/// Build the response a handler outcome is reported as, if any.
pub fn response_for(ctx: &RequestContext, result: HandlerResult) -> (r: Option<WsResponse>)
    ensures
        match r {
            Some(m) => classified_response(*ctx, result) == Some(m@),
            None => classified_response(*ctx, result) is None,
        },
{
    match result {
        HandlerResult::Success(v) => Some(
            WsResponse::Immediate(
                WsSuccessResponse { method: ctx.method, seq: ctx.seq, params: v },
            ),
        ),
        HandlerResult::NoResponse => None,
        HandlerResult::Database { code, message } => match code {
            Some(c) => match CustomError::from_sql_error(c.as_str(), message.as_str()) {
                Some(e) => Some(request_error_to_resp(ctx, e.code, e.params)),
                None => Some(
                    internal_error_to_resp(ctx, ErrorCode::new(ERROR_CODE_DATABASE_ERROR)),
                ),
            },
            None => Some(internal_error_to_resp(ctx, ErrorCode::new(ERROR_CODE_DATABASE_ERROR))),
        },
        HandlerResult::Domain(e) => Some(request_error_to_resp(ctx, e.code, e.params)),
        HandlerResult::Other => Some(
            internal_error_to_resp(ctx, ErrorCode::new(ERROR_CODE_INTERNAL_SERVER_ERROR)),
        ),
    }
}

/// The dispatch façade. It owns the delivery strategy and the per-connection
/// outbound queues; every response a handler, the auth path or publish/
/// subscribe produces goes through `send`.
pub struct Toolbox {
    pub delivery: DeliveryStrategy,
    pub states: WebsocketStates,
}

impl Toolbox {
    pub open spec fn wf(&self) -> bool {
        self.states.wf()
    }

    /// `send` under the current strategy: `r` reports whether the target was
    /// known, its queue is extended accordingly, and nothing else changes.
    pub open spec fn sent(
        pre: Toolbox,
        post: Toolbox,
        id: ConnectionId,
        m: WsResponseModel,
        r: bool,
    ) -> bool {
        &&& post.delivery == pre.delivery
        &&& (match pre.delivery {
            DeliveryStrategy::Discard => r == false && post.states == pre.states,
            _ => {
                &&& r == pre.states.has_conn(id)
                &&& forall|c: ConnectionId| post.states.has_conn(c) == pre.states.has_conn(c)
                &&& forall|c: ConnectionId|
                    c != id ==> post.states.queue_of(c) == pre.states.queue_of(c)
                &&& (r ==> post.states.queue_of(id) == pre.states.queue_of(id) + appended_msgs(
                    pre.delivery,
                    m,
                ))
                &&& (!r ==> post.states.queue_of(id) == pre.states.queue_of(id))
            },
        })
    }

    /// A toolbox with no delivery installed: `send` reports failure.
    pub fn new() -> (r: Self)
        ensures
            r.wf(),
            r.delivery == DeliveryStrategy::Discard,
            forall|c: ConnectionId| !r.states.has_conn(c),
    {
        Self { delivery: DeliveryStrategy::Discard, states: WebsocketStates::new() }
    }

    /// Install queue-and-trigger delivery; `oneshot` transports get a
    /// `Close` sentinel after every response.
    pub fn set_ws_states(&mut self, oneshot: bool)
        ensures
            final(self).states == old(self).states,
            final(self).delivery == if oneshot {
                DeliveryStrategy::QueueOneshot
            } else {
                DeliveryStrategy::Queue
            },
    {
        self.delivery = if oneshot {
            DeliveryStrategy::QueueOneshot
        } else {
            DeliveryStrategy::Queue
        };
    }

    /// Deliver `resp` to `conn_id`, reporting `false` if the target is
    /// unknown (already gone): callers treat that as a harmless no-op.
    pub fn send(&mut self, conn_id: ConnectionId, resp: WsResponse) -> (r: bool)
        requires
            old(self).wf(),
        ensures
            final(self).wf(),
            Self::sent(*old(self), *final(self), conn_id, resp@, r),
    {
        match self.delivery {
            DeliveryStrategy::Discard => false,
            DeliveryStrategy::Queue => {
                let r = self.states.push_msg(conn_id, resp);
                proof {
                    if r {
                        assert(self.states.queue_of(conn_id) =~= old(self).states.queue_of(conn_id)
                            + appended_msgs(old(self).delivery, resp@));
                    }
                }
                r
            },
            DeliveryStrategy::QueueOneshot => {
                let ghost rv = resp@;
                let r = self.states.push_msg(conn_id, resp);
                if r {
                    let closed = self.states.push_msg(conn_id, WsResponse::Close);
                    proof {
                        assert(self.states.queue_of(conn_id) =~= old(self).states.queue_of(conn_id)
                            + appended_msgs(old(self).delivery, rv));
                    }
                }
                r
            },
        }
    }

    /// Report a handler's success value as an `Immediate` response.
    pub fn send_response(&mut self, ctx: &RequestContext, params: JsonValue) -> (r: bool)
        requires
            old(self).wf(),
        ensures
            final(self).wf(),
            Self::sent(
                *old(self),
                *final(self),
                ctx.connection_id,
                WsResponseModel::Immediate { method: ctx.method, seq: ctx.seq, params: params@ },
                r,
            ),
    {
        let resp = WsResponse::Immediate(
            WsSuccessResponse { method: ctx.method, seq: ctx.seq, params },
        );
        self.send(ctx.connection_id, resp)
    }

    /// Report a request-level failure with the given payload.
    pub fn send_request_error(
        &mut self,
        ctx: &RequestContext,
        code: ErrorCode,
        params: JsonValue,
    ) -> (r: bool)
        requires
            old(self).wf(),
        ensures
            final(self).wf(),
            Self::sent(
                *old(self),
                *final(self),
                ctx.connection_id,
                request_error_model(*ctx, code.code, params@),
                r,
            ),
    {
        let resp = request_error_to_resp(ctx, code, params);
        self.send(ctx.connection_id, resp)
    }

    /// Report an internal failure: only the taxonomy code and the log id
    /// reach the wire.
    pub fn send_internal_error(&mut self, ctx: &RequestContext, code: ErrorCode) -> (r: bool)
        requires
            old(self).wf(),
        ensures
            final(self).wf(),
            Self::sent(
                *old(self),
                *final(self),
                ctx.connection_id,
                request_error_model(*ctx, code.code, JsonModel::Null),
                r,
            ),
    {
        let resp = internal_error_to_resp(ctx, code);
        self.send(ctx.connection_id, resp)
    }

    /// Forward a log line to the connection.
    pub fn send_log(&mut self, ctx: &RequestContext, level: LogLevel, msg: String) -> (r: bool)
        requires
            old(self).wf(),
        ensures
            final(self).wf(),
            Self::sent(
                *old(self),
                *final(self),
                ctx.connection_id,
                WsResponseModel::Log {
                    seq: ctx.seq,
                    log_id: ctx.log_id,
                    level: level,
                    message: msg@,
                },
                r,
            ),
    {
        let resp = WsResponse::Log(
            WsLogResponse { seq: ctx.seq, log_id: ctx.log_id, level, message: msg },
        );
        self.send(ctx.connection_id, resp)
    }

    /// Complete a spawned handler: classify its outcome and emit exactly one
    /// response — or none for the no-response sentinel — via `send`. A send
    /// against a connection that is already gone is a no-op.
    pub fn complete_response(&mut self, ctx: &RequestContext, result: HandlerResult) -> (r: bool)
        requires
            old(self).wf(),
        ensures
            final(self).wf(),
            match classified_response(*ctx, result) {
                Some(m) => Self::sent(*old(self), *final(self), ctx.connection_id, m, r),
                None => r == false && *final(self) == *old(self),
            },
    {
        match response_for(ctx, result) {
            Some(resp) => self.send(ctx.connection_id, resp),
            None => false,
        }
    }
}

/// Whether a send through `tb` reaches `id`: a delivery strategy is
/// installed and the target connection is registered.
pub open spec fn send_reaches(tb: Toolbox, id: ConnectionId) -> bool {
    tb.delivery != DeliveryStrategy::Discard && tb.states.has_conn(id)
}

} // verus!
