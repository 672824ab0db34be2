//! The socket server core: the method-code-keyed handler registry, the
//! per-frame decision of the read loop (parse, route, or reject with the
//! right taxonomy code), the flush-loop step, and connection lifecycle.
//! The transport itself — accepting sockets, reading and writing frames —
//! drives these decisions from the outside.
use crate::basics::{
    envelope_of, request_error_model, Connection, ConnectionId,
    RequestContext, WsRequest, WsResponse, WsResponseModel,
};
use crate::endpoint::EndpointSchema;
use crate::error_code::{ErrorCode, ERROR_CODE_BAD_REQUEST, ERROR_CODE_NOT_IMPLEMENTED};
use crate::headers::{EndpointAuthController, SimpleAuthContoller};
use crate::json::{parsed_json, parsed_json_bytes, JsonModel, JsonValue};
use crate::text::has_substring;
use crate::toolbox::{send_reaches, DeliveryStrategy, Toolbox};
use vstd::prelude::*;

verus! {

/// The schema registered under a method code, first match.
spec fn lookup_handler(hs: Seq<(u32, EndpointSchema)>, code: u32) -> Option<EndpointSchema>
    decreases hs.len(),
{
    if hs.len() == 0 {
        None
    } else if hs[0].0 == code {
        Some(hs[0].1)
    } else {
        lookup_handler(hs.drop_first(), code)
    }
}

proof fn lemma_lookup_handler_at(hs: Seq<(u32, EndpointSchema)>, code: u32, i: int)
    requires
        0 <= i < hs.len(),
        hs[i].0 == code,
        forall|k: int| 0 <= k < i ==> hs[k].0 != code,
    ensures
        lookup_handler(hs, code) == Some(hs[i].1),
    decreases i,
{
    if i > 0 {
        lemma_lookup_handler_at(hs.drop_first(), code, i - 1);
    }
}

proof fn lemma_lookup_handler_none(hs: Seq<(u32, EndpointSchema)>, code: u32)
    requires
        forall|k: int| 0 <= k < hs.len() ==> hs[k].0 != code,
    ensures
        lookup_handler(hs, code) is None,
    decreases hs.len(),
{
    if hs.len() > 0 {
        lemma_lookup_handler_none(hs.drop_first(), code);
    }
}

proof fn lemma_lookup_handler_push(
    hs: Seq<(u32, EndpointSchema)>,
    e: (u32, EndpointSchema),
    code: u32,
)
    ensures
        lookup_handler(hs.push(e), code) == if lookup_handler(hs, code) is Some {
            lookup_handler(hs, code)
        } else if e.0 == code {
            Some(e.1)
        } else {
            None
        },
    decreases hs.len(),
{
    if hs.len() == 0 {
        assert(hs.push(e)[0] == e);
        assert(hs.push(e).drop_first() =~= Seq::<(u32, EndpointSchema)>::empty());
        if e.0 != code {
            assert(lookup_handler(hs.push(e), code) == lookup_handler(
                hs.push(e).drop_first(),
                code,
            ));
            assert(lookup_handler(hs.push(e).drop_first(), code) is None);
        }
    } else {
        assert(hs.push(e)[0] == hs[0]);
        assert(hs.push(e).drop_first() =~= hs.drop_first().push(e));
        lemma_lookup_handler_push(hs.drop_first(), e, code);
        if hs[0].0 != code {
            assert(lookup_handler(hs.push(e), code) == lookup_handler(
                hs.drop_first().push(e),
                code,
            ));
            assert(lookup_handler(hs, code) == lookup_handler(hs.drop_first(), code));
        }
    }
}

proof fn lemma_lookup_handler_has(hs: Seq<(u32, EndpointSchema)>, code: u32)
    ensures
        (lookup_handler(hs, code) is Some) <==> exists|k: int|
            0 <= k < hs.len() && #[trigger] hs[k].0 == code,
    decreases hs.len(),
{
    if hs.len() > 0 {
        lemma_lookup_handler_has(hs.drop_first(), code);
        if lookup_handler(hs, code) is Some {
            if hs[0].0 != code {
                let k = choose|k: int|
                    0 <= k < hs.drop_first().len() && #[trigger] hs.drop_first()[k].0 == code;
                assert(hs[k + 1].0 == code);
            }
        }
        if exists|k: int| 0 <= k < hs.len() && #[trigger] hs[k].0 == code {
            let k = choose|k: int| 0 <= k < hs.len() && #[trigger] hs[k].0 == code;
            if k > 0 {
                assert(hs.drop_first()[k - 1].0 == code);
            }
        }
    }
}

/// The authenticator a socket server runs before steady-state traffic:
/// always-allow, or the endpoint-based handshake.
pub enum AuthController {
    Simple(SimpleAuthContoller),
    Endpoint(EndpointAuthController),
}

/// One inbound event of a connection's read loop, as the transport hands
/// it over.
#[derive(Debug)]
pub enum WsMessageEvent {
    /// A text frame, decoded as a JSON envelope.
    Text(String),
    /// A binary frame, decoded as a JSON envelope.
    Binary(Vec<u8>),
    /// Ping and pong frames are silently ignored.
    Ping,
    Pong,
    /// The peer closed; the read loop ends.
    CloseFrame,
    /// Any other frame kind is ignored.
    Unsupported,
    /// A transport error; the read loop ends.
    ReadError,
}

/// What the read loop does next after one event.
#[derive(Debug)]
pub enum ReadAction {
    /// Keep reading; any error response has already been queued.
    Continue,
    /// Invoke the handler registered for the request's method, then keep
    /// reading.
    Dispatch(RequestContext, WsRequest),
    /// Tear the connection down.
    Terminate,
}

/// The context a connection's frames are judged under before a request is
/// decoded: sequence number and method are still zero.
pub open spec fn base_context(conn: Connection) -> RequestContext {
    RequestContext {
        connection_id: conn.connection_id,
        user_id: conn.user_id,
        seq: 0,
        method: 0,
        log_id: conn.log_id,
    }
}

/// The context one decoded request runs under.
pub open spec fn request_context(conn: Connection, method: u32, seq: u32) -> RequestContext {
    RequestContext {
        connection_id: conn.connection_id,
        user_id: conn.user_id,
        seq: seq,
        method: method,
        log_id: conn.log_id,
    }
}

/// What the next flush step found for a connection.
#[derive(Debug)]
pub enum FlushAction {
    /// Nothing queued: release the connection's write path.
    Idle,
    /// The `Close` sentinel: close the transport gracefully; the connection
    /// is already deregistered.
    Close,
    /// Write this response with a bounded timeout; on failure or timeout,
    /// tear the connection down.
    Write(WsResponse),
}

/// The socket server core: a method-code-keyed registry of endpoint schemas
/// (the type-erased handlers themselves live with the transport), the
/// authenticator, and the toolbox all responses flow through.
pub struct WebsocketServer {
    pub auth_controller: AuthController,
    pub handlers: Vec<(u32, EndpointSchema)>,
    pub toolbox: Toolbox,
}

impl WebsocketServer {
    pub open spec fn wf(&self) -> bool {
        &&& self.toolbox.wf()
        &&& self.handlers_wf()
        &&& match self.auth_controller {
            AuthController::Endpoint(c) => c.wf(),
            AuthController::Simple(c) => true,
        }
    }

    pub closed spec fn handlers_wf(&self) -> bool {
        forall|i: int, j: int|
            0 <= i < j < self.handlers@.len() ==> self.handlers@[i].0 != self.handlers@[j].0
    }

    /// Whether a handler is registered under a method code.
    pub closed spec fn has_method(&self, code: u32) -> bool {
        lookup_handler(self.handlers@, code) is Some
    }

    /// The schema registered under a method code.
    pub closed spec fn schema_of(&self, code: u32) -> Option<EndpointSchema> {
        lookup_handler(self.handlers@, code)
    }

    pub fn new() -> (r: Self)
        ensures
            r.wf(),
            forall|c: u32| !r.has_method(c),
            r.toolbox.delivery == DeliveryStrategy::Discard,
            forall|c: ConnectionId| !r.toolbox.states.has_conn(c),
            r.auth_controller is Simple,
    {
        let r = Self {
            auth_controller: AuthController::Simple(SimpleAuthContoller),
            handlers: Vec::new(),
            toolbox: Toolbox::new(),
        };
        proof {
            assert forall|c: u32| !r.has_method(c) by {
                lemma_lookup_handler_none(r.handlers@, c);
            }
        }
        r
    }

    /// Replace the authenticator run at handshake time.
    pub fn add_auth_controller(&mut self, controller: EndpointAuthController)
        requires
            controller.wf(),
        ensures
            final(self).auth_controller == AuthController::Endpoint(controller),
            final(self).toolbox == old(self).toolbox,
            forall|c: u32| final(self).schema_of(c) == old(self).schema_of(c),
            final(self).handlers_wf() == old(self).handlers_wf(),
    {
        self.auth_controller = AuthController::Endpoint(controller);
    }

    /// Register a handler's schema under its method code. Registering a
    /// second handler under a code already taken is refused, and the
    /// registry is left untouched: callers treat that as a startup-fatal
    /// configuration error.
    pub fn add_handler_erased(&mut self, schema: EndpointSchema) -> (r: Result<(), String>)
        requires
            old(self).wf(),
        ensures
            final(self).wf(),
            r is Ok <==> !old(self).has_method(schema.code),
            r is Ok ==> final(self).schema_of(schema.code) == Some(schema),
            r is Ok ==> forall|c: u32|
                c != schema.code ==> final(self).schema_of(c) == old(self).schema_of(c),
            r is Err ==> *final(self) == *old(self),
            final(self).toolbox == old(self).toolbox,
            final(self).auth_controller == old(self).auth_controller,
    {
        let n = self.handlers.len();
        let mut i: usize = 0;
        while i < n
            invariant
                0 <= i <= n,
                forall|k: int| 0 <= k < i ==> self.handlers@[k].0 != schema.code,
            decreases n - i,
        {
            if self.handlers[i].0 == schema.code {
                proof {
                    lemma_lookup_handler_at(self.handlers@, schema.code, i as int);
                }
                let mut m = String::from_str("Overwriting handler for endpoint ");
                m.append(crate::text::u64_to_dec(schema.code as u64).as_str());
                m.append(" ");
                m.append(schema.name.as_str());
                return Err(m);
            }
            i += 1;
        }
        proof {
            lemma_lookup_handler_none(self.handlers@, schema.code);
        }
        let ghost pre = self.handlers@;
        let code = schema.code;
        let entry = (code, schema);
        let ghost ge = entry;
        self.handlers.push(entry);
        proof {
            assert(self.handlers@ =~= pre.push(ge));
            assert forall|c: u32| true implies lookup_handler(self.handlers@, c)
                == if lookup_handler(pre, c) is Some {
                lookup_handler(pre, c)
            } else if ge.0 == c {
                Some(ge.1)
            } else {
                None
            } by {
                lemma_lookup_handler_push(pre, ge, c);
            }
            lemma_lookup_handler_has(pre, ge.0);
            assert forall|i2: int, j2: int|
                0 <= i2 < j2 < self.handlers@.len() implies self.handlers@[i2].0
                != self.handlers@[j2].0 by {
                if j2 == self.handlers@.len() - 1 {
                    assert(self.handlers@[i2] == pre[i2]);
                }
            }
        }
        Ok(())
    }

    /// Register a handler's schema; same contract as `add_handler_erased`.
    pub fn add_handler(&mut self, schema: EndpointSchema) -> (r: Result<(), String>)
        requires
            old(self).wf(),
        ensures
            final(self).wf(),
            r is Ok <==> !old(self).has_method(schema.code),
            r is Ok ==> final(self).schema_of(schema.code) == Some(schema),
            r is Ok ==> forall|c: u32|
                c != schema.code ==> final(self).schema_of(c) == old(self).schema_of(c),
            r is Err ==> *final(self) == *old(self),
            final(self).toolbox == old(self).toolbox,
            final(self).auth_controller == old(self).auth_controller,
    {
        self.add_handler_erased(schema)
    }

    /// Register a fresh connection's outbound queue.
    pub fn on_connection_open(&mut self, conn_id: ConnectionId)
        requires
            old(self).wf(),
        ensures
            final(self).wf(),
            final(self).toolbox.states.has_conn(conn_id),
            final(self).toolbox.states.queue_of(conn_id) == Seq::<WsResponseModel>::empty(),
            forall|c: ConnectionId|
                c != conn_id ==> final(self).toolbox.states.has_conn(c) == old(self).toolbox.states.has_conn(c) && final(self).toolbox.states.queue_of(c) == old(self).toolbox.states.queue_of(c),
            final(self).toolbox.delivery == old(self).toolbox.delivery,
            forall|c: u32| final(self).schema_of(c) == old(self).schema_of(c),
            final(self).auth_controller == old(self).auth_controller,
    {
        self.toolbox.states.insert(conn_id);
    }

    /// Deregister a connection everywhere the outbound path knows it; its
    /// topic subscriptions heal on the next publish.
    pub fn on_connection_close(&mut self, conn_id: ConnectionId)
        requires
            old(self).wf(),
        ensures
            final(self).wf(),
            !final(self).toolbox.states.has_conn(conn_id),
            forall|c: ConnectionId|
                c != conn_id ==> final(self).toolbox.states.has_conn(c) == old(self).toolbox.states.has_conn(c) && final(self).toolbox.states.queue_of(c) == old(self).toolbox.states.queue_of(c),
            final(self).toolbox.delivery == old(self).toolbox.delivery,
            forall|c: u32| final(self).schema_of(c) == old(self).schema_of(c),
            final(self).auth_controller == old(self).auth_controller,
    {
        self.toolbox.states.remove(conn_id);
    }

    /// Decide the read loop's next step for one inbound event:
    /// ping and pong are ignored; a close frame or transport error ends the
    /// loop; a JSON decode failure is answered with exactly one BadRequest
    /// error and the connection stays open; an envelope that names an
    /// unregistered method is answered with exactly one NotImplemented
    /// error; a registered method is dispatched under a context carrying the
    /// frame's sequence number and method.
    pub fn handle_incoming(&mut self, conn: &Connection, event: WsMessageEvent) -> (r: ReadAction)
        requires
            old(self).wf(),
        ensures
            final(self).wf(),
            forall|c: u32| final(self).schema_of(c) == old(self).schema_of(c),
            final(self).auth_controller == old(self).auth_controller,
            final(self).toolbox.delivery == old(self).toolbox.delivery,
            forall|c: ConnectionId|
                final(self).toolbox.states.has_conn(c) == old(self).toolbox.states.has_conn(c),
            match event {
                WsMessageEvent::Text(t) => final(self).frame_outcome(
                    *old(self),
                    *conn,
                    parsed_json(t@),
                    r,
                ),
                WsMessageEvent::Binary(b) => final(self).frame_outcome(
                    *old(self),
                    *conn,
                    parsed_json_bytes(b@),
                    r,
                ),
                WsMessageEvent::Ping | WsMessageEvent::Pong | WsMessageEvent::Unsupported => r
                    is Continue && final(self).toolbox == old(self).toolbox,
                WsMessageEvent::CloseFrame | WsMessageEvent::ReadError => r is Terminate && final(self).toolbox == old(self).toolbox,
            },
    {
        match event {
            WsMessageEvent::Text(t) => {
                let parsed = crate::json::parse_json(t.as_str());
                self.dispatch_frame(conn, parsed)
            },
            WsMessageEvent::Binary(b) => {
                let parsed = crate::json::parse_json_bytes(&b);
                self.dispatch_frame(conn, parsed)
            },
            WsMessageEvent::Ping | WsMessageEvent::Pong | WsMessageEvent::Unsupported => {
                ReadAction::Continue
            },
            WsMessageEvent::CloseFrame | WsMessageEvent::ReadError => ReadAction::Terminate,
        }
    }

    /// How one parsed frame leaves the server: the decision `r`, and the one
    /// error response queued where the frame was rejected.
    pub open spec fn frame_outcome(
        self,
        pre: WebsocketServer,
        conn: Connection,
        parsed: Option<JsonModel>,
        r: ReadAction,
    ) -> bool {
        match parsed {
            None => r is Continue && (exists|m: Seq<char>|
                #[trigger] Toolbox::sent(
                    pre.toolbox,
                    self.toolbox,
                    conn.connection_id,
                    request_error_model(
                        base_context(conn),
                        ERROR_CODE_BAD_REQUEST,
                        JsonModel::Str(m),
                    ),
                    send_reaches(pre.toolbox, conn.connection_id),
                )),
            Some(v) => match envelope_of(v) {
                None => r is Continue && Toolbox::sent(
                    pre.toolbox,
                    self.toolbox,
                    conn.connection_id,
                    request_error_model(
                        base_context(conn),
                        ERROR_CODE_BAD_REQUEST,
                        JsonModel::Str("invalid request envelope"@),
                    ),
                    send_reaches(pre.toolbox, conn.connection_id),
                ),
                Some((method, seq, params)) => match pre.schema_of(method) {
                    None => r is Continue && Toolbox::sent(
                        pre.toolbox,
                        self.toolbox,
                        conn.connection_id,
                        request_error_model(
                            request_context(conn, method, seq),
                            ERROR_CODE_NOT_IMPLEMENTED,
                            JsonModel::Null,
                        ),
                        send_reaches(pre.toolbox, conn.connection_id),
                    ),
                    Some(schema) => {
                        &&& self.toolbox == pre.toolbox
                        &&& r matches ReadAction::Dispatch(ctx, req)
                        &&& (r matches ReadAction::Dispatch(ctx, req) ==> ctx == request_context(
                            conn,
                            method,
                            seq,
                        ) && req.method == method && req.seq == seq && req.params@ == params)
                    },
                },
            },
        }
    }

    fn dispatch_frame(&mut self, conn: &Connection, parsed: Result<JsonValue, String>) -> (r:
        ReadAction)
        requires
            old(self).wf(),
        ensures
            final(self).wf(),
            forall|c: u32| final(self).schema_of(c) == old(self).schema_of(c),
            final(self).auth_controller == old(self).auth_controller,
            final(self).toolbox.delivery == old(self).toolbox.delivery,
            forall|c: ConnectionId|
                final(self).toolbox.states.has_conn(c) == old(self).toolbox.states.has_conn(c),
            final(self).frame_outcome(
                *old(self),
                *conn,
                match parsed {
                    Ok(v) => Some(v@),
                    Err(_) => None,
                },
                r,
            ),
    {
        let base_ctx = RequestContext {
            connection_id: conn.connection_id,
            user_id: conn.user_id,
            seq: 0,
            method: 0,
            log_id: conn.log_id,
        };
        match parsed {
            Err(m) => {
                let ghost mv = m@;
                let _sent = self.toolbox.send_request_error(
                    &base_ctx,
                    ErrorCode::new(ERROR_CODE_BAD_REQUEST),
                    JsonValue::Str(m),
                );
                proof {
                    assert(Toolbox::sent(
                        old(self).toolbox,
                        self.toolbox,
                        conn.connection_id,
                        request_error_model(
                            base_context(*conn),
                            ERROR_CODE_BAD_REQUEST,
                            JsonModel::Str(mv),
                        ),
                        send_reaches(old(self).toolbox, conn.connection_id),
                    ));
                }
                ReadAction::Continue
            },
            Ok(v) => {
                match crate::basics::decode_envelope(&v) {
                    None => {
                        let _sent = self.toolbox.send_request_error(
                            &base_ctx,
                            ErrorCode::new(ERROR_CODE_BAD_REQUEST),
                            JsonValue::Str(String::from_str("invalid request envelope")),
                        );
                        ReadAction::Continue
                    },
                    Some(req) => {
                        let ctx = RequestContext {
                            connection_id: conn.connection_id,
                            user_id: conn.user_id,
                            seq: req.seq,
                            method: req.method,
                            log_id: conn.log_id,
                        };
                        let mut found = false;
                        let n = self.handlers.len();
                        let mut i: usize = 0;
                        while i < n && !found
                            invariant
                                0 <= i <= n,
                                found ==> self.has_method(req.method),
                                !found ==> forall|k: int|
                                    0 <= k < i ==> self.handlers@[k].0 != req.method,
                            decreases n - i + (if found {
                                0int
                            } else {
                                1int
                            }),
                        {
                            if self.handlers[i].0 == req.method {
                                proof {
                                    lemma_lookup_handler_at(self.handlers@, req.method, i as int);
                                }
                                found = true;
                            } else {
                                i += 1;
                            }
                        }
                        if found {
                            ReadAction::Dispatch(ctx, req)
                        } else {
                            proof {
                                lemma_lookup_handler_none(self.handlers@, req.method);
                            }
                            let _sent = self.toolbox.send_request_error(
                                &ctx,
                                ErrorCode::new(ERROR_CODE_NOT_IMPLEMENTED),
                                JsonValue::Null,
                            );
                            ReadAction::Continue
                        }
                    },
                }
            },
        }
    }

    /// Take the next flush step for a connection: nothing queued means the
    /// writer goes idle; the `Close` sentinel deregisters the connection and
    /// closes the transport; anything else is written out.
    pub fn flush_next(&mut self, conn_id: ConnectionId) -> (r: FlushAction)
        requires
            old(self).wf(),
        ensures
            final(self).wf(),
            forall|c: u32| final(self).schema_of(c) == old(self).schema_of(c),
            final(self).auth_controller == old(self).auth_controller,
            final(self).toolbox.delivery == old(self).toolbox.delivery,
            forall|c: ConnectionId|
                c != conn_id ==> final(self).toolbox.states.has_conn(c) == old(self).toolbox.states.has_conn(c) && final(self).toolbox.states.queue_of(c) == old(self).toolbox.states.queue_of(c),
            match r {
                FlushAction::Idle => old(self).toolbox.states.queue_of(conn_id).len() == 0 && final(self).toolbox.states.has_conn(conn_id) == old(self).toolbox.states.has_conn(conn_id)
                    && final(self).toolbox.states.queue_of(conn_id) == old(self).toolbox.states.queue_of(conn_id),
                FlushAction::Close => old(self).toolbox.states.queue_of(conn_id).len() > 0 && old(self).toolbox.states.queue_of(conn_id)[0] == WsResponseModel::Close && !final(self).toolbox.states.has_conn(conn_id),
                FlushAction::Write(m) => old(self).toolbox.states.queue_of(conn_id).len() > 0 && m@
                    == old(self).toolbox.states.queue_of(conn_id)[0] && m@
                    != WsResponseModel::Close && final(self).toolbox.states.has_conn(conn_id) == old(self).toolbox.states.has_conn(conn_id) && final(self).toolbox.states.queue_of(conn_id)
                    == old(self).toolbox.states.queue_of(conn_id).drop_first(),
            },
    {
        match self.toolbox.states.pop_msg(conn_id) {
            None => FlushAction::Idle,
            Some(msg) => match msg {
                WsResponse::Close => {
                    self.toolbox.states.remove(conn_id);
                    FlushAction::Close
                },
                other => FlushAction::Write(other),
            },
        }
    }
}

/// Check that a type's name contains the name the schema calls for; the
/// message names the mismatching category.
pub fn check_name(cat: &str, be_name: &str, should_name: &str) -> (r: Result<(), String>)
    ensures
        r is Ok <==> has_substring(be_name@, should_name@),
{
    if crate::text::str_contains(be_name, should_name) {
        Ok(())
    } else {
        let mut m = String::from_str(cat);
        m.append(" name should be ");
        m.append(should_name);
        m.append(" but got ");
        m.append(be_name);
        Err(m)
    }
}

/// Declares tungstenite's error type so `wrap_ws_error` can take it; the
/// core never looks inside one.
#[verifier::external_type_specification]
#[verifier::external_body]
pub struct ExWsError(tokio_tungstenite::tungstenite::Error);

/// Relies on tungstenite's `Error` Display implementation for the message
/// text; nothing is assumed about its content.
#[verifier::external_body]
fn ws_error_text(e: &tokio_tungstenite::tungstenite::Error) -> String {
    e.to_string()
}

/// Flatten a transport-level error into its message, keeping a success
/// value as it is.
pub fn wrap_ws_error<T>(r: Result<T, tokio_tungstenite::tungstenite::Error>) -> (out: Result<
    T,
    String,
>)
    ensures
        out is Ok <==> r is Ok,
        r is Ok ==> out == Result::<T, String>::Ok(r->Ok_0),
{
    match r {
        Ok(v) => Ok(v),
        Err(e) => Err(ws_error_text(&e)),
    }
}

} // verus!
