//! The HTTP adapter core: a name-keyed registry over the same dispatch
//! pipeline as the sockets, the per-request routing and body decode
//! decisions, and the mapping from the awaited response to an HTTP status
//! and body. The HTTP transport itself lives outside.
use crate::basics::{Connection, ConnectionId, RequestContext, WsResponse};
use crate::endpoint::EndpointSchema;
use crate::headers::{
    lemma_lookup_endpoint_at, lemma_lookup_endpoint_has, lemma_lookup_endpoint_none,
    lemma_lookup_endpoint_push, lookup_endpoint,
};
use crate::json::{field_models_of, lemma_field_models_of, JsonModel, JsonValue};
use crate::text::dec_str_of;
use crate::toolbox::Toolbox;
use vstd::prelude::*;

verus! {

/// The body of an HTTP reply: a JSON value, or plain text.
#[derive(Debug)]
pub enum HttpBody {
    Json(JsonValue),
    Text(String),
}

/// One HTTP reply: status code and body.
#[derive(Debug)]
pub struct HttpResponse {
    pub status: u16,
    pub body: HttpBody,
}

/// A request's path with the leading slashes removed: the endpoint name it
/// routes to.
pub open spec fn path_name(path: Seq<char>) -> Seq<char>
    decreases path.len(),
{
    if path.len() > 0 && path[0] == '/' {
        path_name(path.drop_first())
    } else {
        path
    }
}

proof fn lemma_path_name_at(path: Seq<char>, i: int)
    requires
        0 <= i <= path.len(),
        forall|k: int| 0 <= k < i ==> path[k] == '/',
        i == path.len() || path[i] != '/',
    ensures
        path_name(path) == path.subrange(i, path.len() as int),
    decreases i,
{
    if i == 0 {
        assert(path.subrange(0, path.len() as int) =~= path);
    } else {
        let t = path.drop_first();
        assert(forall|k: int| 0 <= k < i - 1 ==> t[k] == path[k + 1]);
        if i < path.len() {
            assert(t[i - 1] == path[i as int]);
        }
        lemma_path_name_at(t, i - 1);
        assert(t.subrange(i - 1, t.len() as int) =~= path.subrange(i, path.len() as int));
    }
}

fn strip_leading_slashes(path: &str) -> (r: String)
    ensures
        r@ == path_name(path@),
{
    let n = path.unicode_len();
    let mut i: usize = 0;
    while i < n && path.get_char(i) == '/'
        invariant
            0 <= i <= n,
            n == path@.len(),
            forall|k: int| 0 <= k < i ==> path@[k] == '/',
        decreases n - i,
    {
        i += 1;
    }
    proof {
        lemma_path_name_at(path@, i as int);
    }
    String::from_str(path.substring_char(i, n))
}

/// The HTTP front end: endpoints are registered under their names, case as
/// registered, and every request runs through the same handler pipeline the
/// sockets use, with a direct single-shot delivery.
pub struct HttpServer {
    pub handlers: Vec<(String, EndpointSchema)>,
    pub toolbox: Toolbox,
}

impl HttpServer {
    pub open spec fn wf(&self) -> bool {
        &&& self.toolbox.wf()
        &&& self.handlers_wf()
    }

    pub closed spec fn handlers_wf(&self) -> bool {
        forall|i: int, j: int|
            0 <= i < j < self.handlers@.len() ==> self.handlers@[i].0@ != self.handlers@[j].0@
    }

    /// Whether an endpoint is registered under a name.
    pub closed spec fn has_endpoint(&self, name: Seq<char>) -> bool {
        lookup_endpoint(self.handlers@, name) is Some
    }

    /// The schema registered under a name.
    pub closed spec fn endpoint_named(&self, name: Seq<char>) -> Option<EndpointSchema> {
        lookup_endpoint(self.handlers@, name)
    }

    pub fn new() -> (r: Self)
        ensures
            r.wf(),
            forall|k: Seq<char>| !r.has_endpoint(k),
            r.toolbox.delivery == crate::toolbox::DeliveryStrategy::Discard,
            forall|c: ConnectionId| !r.toolbox.states.has_conn(c),
    {
        let r = Self { handlers: Vec::new(), toolbox: Toolbox::new() };
        proof {
            assert forall|k: Seq<char>| !r.has_endpoint(k) by {
                lemma_lookup_endpoint_none(r.handlers@, k);
            }
        }
        r
    }

    /// Register a handler's schema under its endpoint name, case as
    /// registered. Registering a second handler under a name already taken
    /// is refused and the registry left untouched: callers treat that as a
    /// startup-fatal configuration error.
    pub fn add_handler_erased(&mut self, schema: EndpointSchema) -> (r: Result<(), String>)
        requires
            old(self).wf(),
        ensures
            final(self).wf(),
            r is Ok <==> !old(self).has_endpoint(schema.name@),
            r is Ok ==> final(self).endpoint_named(schema.name@) == Some(schema),
            r is Ok ==> forall|k: Seq<char>|
                k != schema.name@ ==> final(self).endpoint_named(k) == old(self).endpoint_named(k),
            r is Err ==> *final(self) == *old(self),
            final(self).toolbox == old(self).toolbox,
    {
        let n = self.handlers.len();
        let mut i: usize = 0;
        while i < n
            invariant
                0 <= i <= n,
                forall|k: int| 0 <= k < i ==> self.handlers@[k].0@ != schema.name@,
            decreases n - i,
        {
            if crate::text::str_eq(self.handlers[i].0.as_str(), schema.name.as_str()) {
                proof {
                    lemma_lookup_endpoint_at(self.handlers@, schema.name@, i as int);
                }
                let mut m = String::from_str("Overwriting handler for endpoint ");
                m.append(crate::text::u64_to_dec(schema.code as u64).as_str());
                m.append(" ");
                m.append(schema.name.as_str());
                return Err(m);
            }
            i += 1;
        }
        proof {
            lemma_lookup_endpoint_none(self.handlers@, schema.name@);
        }
        let ghost pre = self.handlers@;
        let key = schema.name.clone();
        let entry = (key, schema);
        let ghost ge = entry;
        self.handlers.push(entry);
        proof {
            assert(self.handlers@ =~= pre.push(ge));
            assert forall|k: Seq<char>| true implies lookup_endpoint(self.handlers@, k)
                == if lookup_endpoint(pre, k) is Some {
                lookup_endpoint(pre, k)
            } else if ge.0@ == k {
                Some(ge.1)
            } else {
                None
            } by {
                lemma_lookup_endpoint_push(pre, ge, k);
            }
            lemma_lookup_endpoint_has(pre, ge.0@);
            assert forall|i2: int, j2: int|
                0 <= i2 < j2 < self.handlers@.len() implies self.handlers@[i2].0@
                != self.handlers@[j2].0@ by {
                if j2 == self.handlers@.len() - 1 {
                    assert(self.handlers@[i2] == pre[i2]);
                }
            }
        }
        Ok(())
    }

    /// Register a handler's schema; same contract as `add_handler_erased`.
    pub fn add_handler(&mut self, schema: EndpointSchema) -> (r: Result<(), String>)
        requires
            old(self).wf(),
        ensures
            final(self).wf(),
            r is Ok <==> !old(self).has_endpoint(schema.name@),
            r is Ok ==> final(self).endpoint_named(schema.name@) == Some(schema),
            r is Ok ==> forall|k: Seq<char>|
                k != schema.name@ ==> final(self).endpoint_named(k) == old(self).endpoint_named(k),
            r is Err ==> *final(self) == *old(self),
            final(self).toolbox == old(self).toolbox,
    {
        self.add_handler_erased(schema)
    }

    /// Route a request and decode its body: an unknown path is refused with
    /// 404 and a plain-text message; a malformed JSON body with 400 carrying
    /// the decode error text; otherwise the request is ready to dispatch
    /// under a context carrying the resolved endpoint's method code.
    pub fn dispatch_http(&self, conn: &Connection, path: &str, body: &Vec<u8>, seq: u32) -> (r:
        Result<(RequestContext, JsonValue), HttpResponse>)
        ensures
            match r {
                Ok((ctx, params)) => {
                    &&& self.endpoint_named(path_name(path@)) is Some
                    &&& ctx.connection_id == conn.connection_id
                    &&& ctx.user_id == conn.user_id
                    &&& ctx.seq == seq
                    &&& ctx.method == self.endpoint_named(path_name(path@))->Some_0.code
                    &&& ctx.log_id == conn.log_id
                    &&& crate::json::parsed_json_bytes(body@) == Some(params@)
                },
                Err(resp) => {
                    if !self.has_endpoint(path_name(path@)) {
                        &&& resp.status == 404
                        &&& (resp.body matches HttpBody::Text(m) && m@ == "Endpoint "@ + path_name(
                            path@,
                        ) + " not found"@)
                    } else {
                        &&& crate::json::parsed_json_bytes(body@) is None
                        &&& resp.status == 400
                        &&& resp.body is Text
                    }
                },
            },
    {
        let name = strip_leading_slashes(path);
        let n = self.handlers.len();
        let mut i: usize = 0;
        while i < n
            invariant
                0 <= i <= n,
                forall|k: int| 0 <= k < i ==> self.handlers@[k].0@ != name@,
            decreases n - i,
        {
            if crate::text::str_eq(self.handlers[i].0.as_str(), name.as_str()) {
                proof {
                    lemma_lookup_endpoint_at(self.handlers@, name@, i as int);
                }
                let schema = &self.handlers[i].1;
                match crate::json::parse_json_bytes(body) {
                    Ok(params) => {
                        let ctx = RequestContext {
                            connection_id: conn.connection_id,
                            user_id: conn.user_id,
                            seq,
                            method: schema.code,
                            log_id: conn.log_id,
                        };
                        return Ok((ctx, params));
                    },
                    Err(m) => {
                        return Err(HttpResponse { status: 400, body: HttpBody::Text(m) });
                    },
                }
            }
            i += 1;
        }
        proof {
            lemma_lookup_endpoint_none(self.handlers@, name@);
        }
        let mut m = String::from_str("Endpoint ");
        m.append(name.as_str());
        m.append(" not found");
        Err(HttpResponse { status: 404, body: HttpBody::Text(m) })
    }
}

/// Map the one awaited response of an HTTP request to its reply: a success
/// becomes 200 with the payload as body; an error becomes 400 with the error
/// object as body; any other variant is an implementation invariant
/// violation and is reported as an internal error carrying only the
/// connection's log id.
pub fn http_response_of(ctx: &RequestContext, resp: WsResponse) -> (r: HttpResponse)
    ensures
        resp is Immediate ==> r.status == 200 && (r.body matches HttpBody::Json(b) && b@
            == resp->Immediate_0.params@),
        resp is Error ==> r.status == 400 && (r.body matches HttpBody::Json(b) && b@
            == JsonModel::Obj(
            seq![
                ("method"@, JsonModel::Int(resp->Error_0.method as int)),
                ("code"@, JsonModel::Int(resp->Error_0.code as int)),
                ("seq"@, JsonModel::Int(resp->Error_0.seq as int)),
                ("log_id"@, JsonModel::Str(resp->Error_0.log_id@)),
                ("params"@, resp->Error_0.params@),
            ],
        )),
        !(resp is Immediate) && !(resp is Error) ==> r.status == 500 && (r.body
            matches HttpBody::Text(m) && m@ == "Internal Server Error: log_id="@ + dec_str_of(
            ctx.log_id as nat,
        )),
{
    match resp {
        WsResponse::Immediate(x) => HttpResponse { status: 200, body: HttpBody::Json(x.params) },
        WsResponse::Error(e) => {
            let ghost logv = e.log_id@;
            let ghost pv = e.params@;
            let mut fields: Vec<(String, JsonValue)> = Vec::new();
            fields.push((String::from_str("method"), JsonValue::Int(e.method as i64)));
            fields.push((String::from_str("code"), JsonValue::Int(e.code as i64)));
            fields.push((String::from_str("seq"), JsonValue::Int(e.seq as i64)));
            fields.push((String::from_str("log_id"), JsonValue::Str(e.log_id)));
            fields.push((String::from_str("params"), e.params));
            proof {
                lemma_field_models_of(fields@);
                assert(field_models_of(fields@) =~= seq![
                    ("method"@, JsonModel::Int(e.method as int)),
                    ("code"@, JsonModel::Int(e.code as int)),
                    ("seq"@, JsonModel::Int(e.seq as int)),
                    ("log_id"@, JsonModel::Str(logv)),
                    ("params"@, pv),
                ]);
            }
            HttpResponse { status: 400, body: HttpBody::Json(JsonValue::Obj(fields)) }
        },
        other => {
            let mut m = String::from_str("Internal Server Error: log_id=");
            m.append(crate::text::u64_to_dec(ctx.log_id).as_str());
            HttpResponse { status: 500, body: HttpBody::Text(m) }
        },
    }
}

} // verus!
