//! The handshake-based auth path: parsing of the negotiation field that the
//! client sends during transport upgrade, coercion of its positional
//! parameters against the auth endpoint's declared schema, and the protocol
//! echo for the upgrade response.
use crate::basics::{Connection, RequestContext};
use crate::endpoint::{EndpointSchema, Type};
use crate::json::{field_models_of, lemma_field_models_of, JsonModel, JsonValue};
use crate::text::{
    dec_str_of, lower_seq, parse_bool_spec, parse_i64_spec, split_at_seps, trim_spec, u64_to_dec,
};
use vstd::prelude::*;

verus! {

/// What percent-decoding yields on a given text; `None` where the decoded
/// bytes are not valid UTF-8.
pub uninterp spec fn url_decoded(s: Seq<char>) -> Option<Seq<char>>;

/// Relies on urlencoding::decode: percent-decoding is a function of the text
/// alone, and fails only on invalid UTF-8 in the decoded bytes.
#[verifier::external_body]
fn url_decode(s: &str) -> (r: Option<String>)
    ensures
        match r {
            Some(d) => url_decoded(s@) == Some(d@),
            None => url_decoded(s@) is None,
        },
{
    match urlencoding::decode(s) {
        Ok(d) => Some(d.into_owned()),
        Err(_) => None,
    }
}

/// What convert_case yields for the camel-case form of an identifier: a
/// function of the identifier alone.
pub uninterp spec fn camel_of(s: Seq<char>) -> Seq<char>;

/// Relies on convert_case's `Casing::to_case` with the camel case.
#[verifier::external_body]
fn to_camel_case(s: &str) -> (r: String)
    ensures
        r@ == camel_of(s@),
{
    convert_case::Casing::to_case(&s, convert_case::Case::Camel)
}

/// The first comma-separated candidate of the negotiation header: the value
/// the server echoes back in the upgrade response.
pub fn first_protocol_candidate(protocol: &str) -> (r: String)
    ensures
        split_at_seps(protocol@, ',').len() >= 1,
        r@ == split_at_seps(protocol@, ',')[0],
{
    let fields = crate::text::split_str(protocol, ',');
    let r = fields[0].clone();
    r
}

/// The handshake fields of the split header: each comma-separated field is
/// trimmed, empty fields are dropped, and the rest are read as a one-char
/// positional key followed by the value.
pub open spec fn handshake_pairs(raw: Seq<Seq<char>>) -> Seq<(Seq<char>, Seq<char>)>
    decreases raw.len(),
{
    if raw.len() == 0 {
        Seq::empty()
    } else {
        let t = trim_spec(raw[0]);
        let rest = handshake_pairs(raw.drop_first());
        if t.len() == 0 {
            rest
        } else {
            seq![(t.subrange(0, 1), t.subrange(1, t.len() as int))] + rest
        }
    }
}

/// The parsed negotiation field of a header.
pub open spec fn parsed_handshake(header: Seq<char>) -> Seq<(Seq<char>, Seq<char>)> {
    handshake_pairs(split_at_seps(header, ','))
}

/// The value bound to a positional key; where a key repeats, the last
/// occurrence wins.
pub open spec fn field_value(pairs: Seq<(Seq<char>, Seq<char>)>, key: Seq<char>) -> Option<
    Seq<char>,
>
    decreases pairs.len(),
{
    if pairs.len() == 0 {
        None
    } else if pairs.last().0 == key {
        Some(pairs.last().1)
    } else {
        field_value(pairs.drop_last(), key)
    }
}

/// Parse the negotiation field into its (key, value) pairs, in order.
pub fn parse_handshake_fields(header: &str) -> (pairs: Vec<(String, String)>)
    ensures
        pairs@.len() == parsed_handshake(header@).len(),
        forall|i: int|
            0 <= i < pairs@.len() ==> (#[trigger] pairs@[i].0@, pairs@[i].1@) == parsed_handshake(
                header@,
            )[i],
{
    let raw = crate::text::split_str(header, ',');
    let ghost rawv = crate::text::views_of(raw@);
    let mut pairs: Vec<(String, String)> = Vec::new();
    let n = raw.len();
    let mut i: usize = 0;
    proof {
        assert(rawv.subrange(0, rawv.len() as int) =~= rawv);
    }
    while i < n
        invariant
            0 <= i <= n,
            n == raw@.len(),
            n == rawv.len(),
            forall|k: int| 0 <= k < n ==> raw@[k]@ == rawv[k],
            handshake_pairs(rawv) =~= pairs_views(pairs@) + handshake_pairs(
                rawv.subrange(i as int, n as int),
            ),
        decreases n - i,
    {
        proof {
            let rest = rawv.subrange(i as int, n as int);
            assert(rest[0] == rawv[i as int]);
            assert(rest.drop_first() =~= rawv.subrange(i + 1, n as int));
        }
        let t = crate::text::trim_str(raw[i].as_str());
        let m = t.as_str().unicode_len();
        if m > 0 {
            let key = String::from_str(t.as_str().substring_char(0, 1));
            let value = String::from_str(t.as_str().substring_char(1, m));
            let ghost oldp = pairs@;
            pairs.push((key, value));
            proof {
                assert(pairs_views(pairs@) =~= pairs_views(oldp).push(
                    (trim_spec(rawv[i as int]).subrange(0, 1), trim_spec(rawv[i as int]).subrange(
                        1,
                        trim_spec(rawv[i as int]).len() as int,
                    )),
                ));
                assert(handshake_pairs(rawv) =~= pairs_views(pairs@) + handshake_pairs(
                    rawv.subrange(i + 1, n as int),
                ));
            }
        }
        i += 1;
    }
    proof {
        assert(rawv.subrange(n as int, n as int).len() == 0);
        assert(handshake_pairs(rawv) =~= pairs_views(pairs@));
        lemma_pairs_views(pairs@);
    }
    pairs
}

/// The views of exec (key, value) pairs.
pub open spec fn pairs_views(ps: Seq<(String, String)>) -> Seq<(Seq<char>, Seq<char>)> {
    ps.map_values(|p: (String, String)| (p.0@, p.1@))
}

proof fn lemma_pairs_views(ps: Seq<(String, String)>)
    ensures
        pairs_views(ps).len() == ps.len(),
        forall|i: int| 0 <= i < ps.len() ==> pairs_views(ps)[i] == (ps[i].0@, ps[i].1@),
{
}

/// Find the value bound to a positional key, last occurrence first.
pub fn lookup_handshake_field(pairs: &Vec<(String, String)>, key: &str) -> (r: Option<String>)
    ensures
        match r {
            Some(v) => field_value(pairs_views(pairs@), key@) == Some(v@),
            None => field_value(pairs_views(pairs@), key@) is None,
        },
{
    let ghost pv = pairs_views(pairs@);
    proof {
        lemma_pairs_views(pairs@);
        assert(pv.subrange(0, pv.len() as int) =~= pv);
    }
    let mut i: usize = pairs.len();
    while i > 0
        invariant
            0 <= i <= pairs@.len(),
            pv.len() == pairs@.len(),
            forall|k: int| 0 <= k < pv.len() ==> pv[k] == (pairs@[k].0@, pairs@[k].1@),
            field_value(pv, key@) == field_value(pv.subrange(0, i as int), key@),
        decreases i,
    {
        proof {
            let part = pv.subrange(0, i as int);
            assert(part.last() == pv[i - 1]);
            assert(part.drop_last() =~= pv.subrange(0, i - 1));
        }
        if crate::text::str_eq(pairs[i - 1].0.as_str(), key) {
            return Some(pairs[i - 1].1.clone());
        }
        i -= 1;
    }
    proof {
        assert(pv.subrange(0, 0).len() == 0);
    }
    None
}

/// The coercion of one positional value against its declared type:
/// `String` is percent-decoded; `Int` and `Boolean` are parsed; an `Enum`
/// value passes through as a string, except the legacy numeric codes of the
/// dedicated `service` enum, which map to their fixed names; a `UUID` passes
/// through as a string.
pub open spec fn coerce_param(ty: Type, value: Seq<char>) -> Option<JsonModel> {
    match ty {
        Type::String => match url_decoded(value) {
            Some(d) => Some(JsonModel::Str(d)),
            None => None,
        },
        Type::Int => match parse_i64_spec(value) {
            Some(n) => Some(JsonModel::Int(n as int)),
            None => None,
        },
        Type::Boolean => match parse_bool_spec(value) {
            Some(b) => Some(JsonModel::Bool(b)),
            None => None,
        },
        Type::Enum { name, .. } => if name@ == "service"@ {
            if value == "2"@ {
                Some(JsonModel::Str("User"@))
            } else if value == "3"@ {
                Some(JsonModel::Str("Admin"@))
            } else {
                Some(JsonModel::Str(value))
            }
        } else {
            Some(JsonModel::Str(value))
        },
        Type::UUID => Some(JsonModel::Str(value)),
    }
}

/// Coerce one positional value against its declared type.
pub fn coerce_value(ty: &Type, value: &str) -> (r: Option<JsonValue>)
    ensures
        match r {
            Some(v) => coerce_param(*ty, value@) == Some(v@),
            None => coerce_param(*ty, value@) is None,
        },
{
    match ty {
        Type::String => match url_decode(value) {
            Some(d) => Some(JsonValue::Str(d)),
            None => None,
        },
        Type::Int => match crate::text::parse_i64(value) {
            Some(n) => Some(JsonValue::Int(n)),
            None => None,
        },
        Type::Boolean => match crate::text::parse_bool(value) {
            Some(b) => Some(JsonValue::Bool(b)),
            None => None,
        },
        Type::Enum { name, .. } => {
            if crate::text::str_eq(name.as_str(), "service") {
                if crate::text::str_eq(value, "2") {
                    Some(JsonValue::Str(String::from_str("User")))
                } else if crate::text::str_eq(value, "3") {
                    Some(JsonValue::Str(String::from_str("Admin")))
                } else {
                    Some(JsonValue::Str(String::from_str(value)))
                }
            } else {
                Some(JsonValue::Str(String::from_str(value)))
            }
        },
        Type::UUID => Some(JsonValue::Str(String::from_str(value))),
    }
}

/// The coerced parameter object fields for the declared parameters, bound to
/// the positional keys `base`, `base + 1`, ... in declaration order; `None`
/// as soon as a parameter is missing or fails to coerce.
pub open spec fn auth_params_from(
    fields: Seq<crate::endpoint::Field>,
    pairs: Seq<(Seq<char>, Seq<char>)>,
    base: int,
) -> Option<Seq<(Seq<char>, JsonModel)>>
    decreases fields.len(),
{
    if fields.len() == 0 {
        Some(Seq::empty())
    } else {
        match field_value(pairs, dec_str_of(base as nat)) {
            None => None,
            Some(v) => match coerce_param(fields[0].ty, v) {
                None => None,
                Some(j) => match auth_params_from(fields.drop_first(), pairs, base + 1) {
                    None => None,
                    Some(rest) => Some(seq![(camel_of(fields[0].name@), j)] + rest),
                },
            },
        }
    }
}

/// An accepted handshake: the resolved auth endpoint's method code and the
/// decoded parameter object to invoke it with.
#[derive(Debug)]
pub struct AuthDispatch {
    pub context: RequestContext,
    pub params: JsonValue,
}

/// The always-allow authenticator: every connection is accepted without
/// credentials.
#[derive(Debug)]
pub struct SimpleAuthContoller;

impl SimpleAuthContoller {
    /// Accept unconditionally.
    pub fn auth(&self, _header: &str, _conn: &Connection) -> (r: Result<(), String>)
        ensures
            r is Ok,
    {
        Ok(())
    }
}

/// The endpoint lookup key and schema registered under a (lowercased) name,
/// first match.
pub(crate) open spec fn lookup_endpoint(
    es: Seq<(String, EndpointSchema)>,
    key: Seq<char>,
) -> Option<EndpointSchema>
    decreases es.len(),
{
    if es.len() == 0 {
        None
    } else if es[0].0@ == key {
        Some(es[0].1)
    } else {
        lookup_endpoint(es.drop_first(), key)
    }
}

pub(crate) proof fn lemma_lookup_endpoint_at(es: Seq<(String, EndpointSchema)>, key: Seq<char>, i: int)
    requires
        0 <= i < es.len(),
        es[i].0@ == key,
        forall|k: int| 0 <= k < i ==> es[k].0@ != key,
    ensures
        lookup_endpoint(es, key) == Some(es[i].1),
    decreases i,
{
    if i > 0 {
        lemma_lookup_endpoint_at(es.drop_first(), key, i - 1);
    }
}

pub(crate) proof fn lemma_lookup_endpoint_none(es: Seq<(String, EndpointSchema)>, key: Seq<char>)
    requires
        forall|k: int| 0 <= k < es.len() ==> es[k].0@ != key,
    ensures
        lookup_endpoint(es, key) is None,
    decreases es.len(),
{
    if es.len() > 0 {
        lemma_lookup_endpoint_none(es.drop_first(), key);
    }
}

pub(crate) proof fn lemma_lookup_endpoint_update_other(
    es: Seq<(String, EndpointSchema)>,
    i: int,
    e2: (String, EndpointSchema),
    key: Seq<char>,
)
    requires
        0 <= i < es.len(),
        e2.0@ == es[i].0@,
        key != es[i].0@,
    ensures
        lookup_endpoint(es.update(i, e2), key) == lookup_endpoint(es, key),
    decreases i,
{
    let s2 = es.update(i, e2);
    if i == 0 {
        assert(s2.drop_first() =~= es.drop_first());
    } else {
        assert(s2.drop_first() =~= es.drop_first().update(i - 1, e2));
        lemma_lookup_endpoint_update_other(es.drop_first(), i - 1, e2, key);
    }
}

pub(crate) proof fn lemma_lookup_endpoint_push(
    es: Seq<(String, EndpointSchema)>,
    e: (String, EndpointSchema),
    key: Seq<char>,
)
    ensures
        lookup_endpoint(es.push(e), key) == if lookup_endpoint(es, key) is Some {
            lookup_endpoint(es, key)
        } else if e.0@ == key {
            Some(e.1)
        } else {
            None
        },
    decreases es.len(),
{
    if es.len() == 0 {
        assert(es.push(e)[0] == e);
        assert(es.push(e).drop_first() =~= Seq::<(String, EndpointSchema)>::empty());
        if e.0@ != key {
            assert(lookup_endpoint(es.push(e), key) == lookup_endpoint(
                es.push(e).drop_first(),
                key,
            ));
            assert(lookup_endpoint(es.push(e).drop_first(), key) is None);
        }
    } else {
        assert(es.push(e)[0] == es[0]);
        assert(es.push(e).drop_first() =~= es.drop_first().push(e));
        lemma_lookup_endpoint_push(es.drop_first(), e, key);
        if es[0].0@ != key {
            assert(lookup_endpoint(es.push(e), key) == lookup_endpoint(
                es.drop_first().push(e),
                key,
            ));
            assert(lookup_endpoint(es, key) == lookup_endpoint(es.drop_first(), key));
        }
    }
}

pub(crate) proof fn lemma_lookup_endpoint_has(es: Seq<(String, EndpointSchema)>, key: Seq<char>)
    ensures
        (lookup_endpoint(es, key) is Some) <==> exists|k: int|
            0 <= k < es.len() && #[trigger] es[k].0@ == key,
    decreases es.len(),
{
    if es.len() > 0 {
        lemma_lookup_endpoint_has(es.drop_first(), key);
        if lookup_endpoint(es, key) is Some {
            if es[0].0@ != key {
                let k = choose|k: int|
                    0 <= k < es.drop_first().len() && #[trigger] es.drop_first()[k].0@ == key;
                assert(es[k + 1].0@ == key);
            }
        }
        if exists|k: int| 0 <= k < es.len() && #[trigger] es[k].0@ == key {
            let k = choose|k: int| 0 <= k < es.len() && #[trigger] es[k].0@ == key;
            if k > 0 {
                assert(es.drop_first()[k - 1].0@ == key);
            }
        }
    }
}

/// The endpoint-based authenticator: auth endpoints are registered under
/// their lowercased names, and a connection's handshake selects one and
/// binds its declared parameters before any normal traffic is accepted.
pub struct EndpointAuthController {
    auth_endpoints: Vec<(String, EndpointSchema)>,
}

impl EndpointAuthController {
    /// Registered keys are unique.
    pub closed spec fn wf(&self) -> bool {
        forall|i: int, j: int|
            0 <= i < j < self.auth_endpoints@.len() ==> self.auth_endpoints@[i].0@
                != self.auth_endpoints@[j].0@
    }

    /// The schema registered under a lookup key.
    pub closed spec fn endpoint_of(&self, key: Seq<char>) -> Option<EndpointSchema> {
        lookup_endpoint(self.auth_endpoints@, key)
    }

    pub fn new() -> (r: Self)
        ensures
            r.wf(),
            forall|k: Seq<char>| r.endpoint_of(k) is None,
    {
        let r = Self { auth_endpoints: Vec::new() };
        proof {
            assert forall|k: Seq<char>| r.endpoint_of(k) is None by {
                lemma_lookup_endpoint_none(r.auth_endpoints@, k);
            }
        }
        r
    }

    fn find_endpoint(&self, key: &str) -> (r: Option<usize>)
        ensures
            match r {
                Some(i) => i < self.auth_endpoints@.len() && self.auth_endpoints@[i as int].0@
                    == key@ && (forall|k: int|
                    0 <= k < i ==> self.auth_endpoints@[k].0@ != key@) && self.endpoint_of(key@)
                    == Some(self.auth_endpoints@[i as int].1),
                None => self.endpoint_of(key@) is None,
            },
    {
        let n = self.auth_endpoints.len();
        let mut i: usize = 0;
        while i < n
            invariant
                0 <= i <= n,
                forall|k: int| 0 <= k < i ==> self.auth_endpoints@[k].0@ != key@,
            decreases n - i,
        {
            if crate::text::str_eq(self.auth_endpoints[i].0.as_str(), key) {
                proof {
                    lemma_lookup_endpoint_at(self.auth_endpoints@, key@, i as int);
                }
                return Some(i);
            }
            i += 1;
        }
        proof {
            lemma_lookup_endpoint_none(self.auth_endpoints@, key@);
        }
        None
    }

    /// Register an auth endpoint under its lowercased name; a previous
    /// registration under the same key is replaced.
    pub fn add_auth_endpoint(&mut self, schema: EndpointSchema)
        requires
            old(self).wf(),
        ensures
            final(self).wf(),
            final(self).endpoint_of(lower_seq(schema.name@)) == Some(schema),
            forall|k: Seq<char>|
                k != lower_seq(schema.name@) ==> final(self).endpoint_of(k) == old(
                    self,
                ).endpoint_of(k),
    {
        let key = crate::text::ascii_lowercase(schema.name.as_str());
        let ghost keyv = key@;
        match self.find_endpoint(key.as_str()) {
            Some(i) => {
                let ghost pre = self.auth_endpoints@;
                let entry = (key, schema);
                let ghost ge = entry;
                self.auth_endpoints[i] = entry;
                proof {
                    assert(self.auth_endpoints@ =~= pre.update(i as int, ge));
                    assert forall|k: Seq<char>| k != keyv implies lookup_endpoint(
                        self.auth_endpoints@,
                        k,
                    ) == lookup_endpoint(pre, k) by {
                        lemma_lookup_endpoint_update_other(pre, i as int, ge, k);
                    }
                    lemma_lookup_endpoint_at(self.auth_endpoints@, keyv, i as int);
                }
            },
            None => {
                let ghost pre = self.auth_endpoints@;
                let entry = (key, schema);
                let ghost ge = entry;
                self.auth_endpoints.push(entry);
                proof {
                    assert(self.auth_endpoints@ =~= pre.push(ge));
                    assert forall|k: Seq<char>| true implies lookup_endpoint(
                        self.auth_endpoints@,
                        k,
                    ) == if lookup_endpoint(pre, k) is Some {
                        lookup_endpoint(pre, k)
                    } else if ge.0@ == k {
                        Some(ge.1)
                    } else {
                        None
                    } by {
                        lemma_lookup_endpoint_push(pre, ge, k);
                    }
                    lemma_lookup_endpoint_has(pre, keyv);
                    assert forall|i: int, j: int|
                        0 <= i < j < self.auth_endpoints@.len() implies self.auth_endpoints@[i].0@
                        != self.auth_endpoints@[j].0@ by {
                        if j == self.auth_endpoints@.len() - 1 {
                            assert(self.auth_endpoints@[i] == pre[i]);
                        }
                    }
                }
            },
        }
    }

    /// What the whole handshake decides: the selected endpoint's code and
    /// the decoded parameter object, or nothing where the method field is
    /// missing, the endpoint unknown, or a parameter missing or malformed.
    pub open spec fn auth_decision(&self, header: Seq<char>) -> Option<
        (u32, Seq<(Seq<char>, JsonModel)>),
    > {
        let pairs = parsed_handshake(header);
        match field_value(pairs, "0"@) {
            None => None,
            Some(mkey) => match self.endpoint_of(mkey) {
                None => None,
                Some(schema) => match auth_params_from(schema.parameters@, pairs, 1) {
                    None => None,
                    Some(ps) => Some((schema.code, ps)),
                },
            },
        }
    }

    /// Run the handshake against the registered auth endpoints: parse the
    /// negotiation field, resolve the endpoint the `0` key selects, decode
    /// its declared parameters in order, and hand back the dispatch that
    /// invokes it — with a synthetic context carrying user id 0 and
    /// sequence number 0 — or the failure that denies the handshake.
    pub fn auth(&self, header: &str, conn: &Connection) -> (r: Result<AuthDispatch, String>)
        ensures
            match r {
                Ok(d) => {
                    &&& self.auth_decision(header@) is Some
                    &&& d.context.method == self.auth_decision(header@)->Some_0.0
                    &&& d.params@ == JsonModel::Obj(self.auth_decision(header@)->Some_0.1)
                    &&& d.context.connection_id == conn.connection_id
                    &&& d.context.user_id == 0
                    &&& d.context.seq == 0
                    &&& d.context.log_id == conn.log_id
                },
                Err(_) => self.auth_decision(header@) is None,
            },
    {
        let pairs = parse_handshake_fields(header);
        let ghost pv = parsed_handshake(header@);
        proof {
            lemma_pairs_views(pairs@);
            assert(pairs_views(pairs@) =~= pv);
        }
        let mkey = match lookup_handshake_field(&pairs, "0") {
            Some(v) => v,
            None => {
                return Err(String::from_str("Could not find method"));
            },
        };
        let ei = match self.find_endpoint(mkey.as_str()) {
            Some(i) => i,
            None => {
                let mut m = String::from_str("Could not find endpoint for method ");
                m.append(mkey.as_str());
                return Err(m);
            },
        };
        let schema = &self.auth_endpoints[ei].1;
        let ghost sfields = schema.parameters@;
        let n = schema.parameters.len();
        let mut params: Vec<(String, JsonValue)> = Vec::new();
        let mut i: usize = 0;
        proof {
            assert(sfields.subrange(0, n as int) =~= sfields);
            let rest_opt = auth_params_from(sfields, pv, 1);
            if rest_opt is Some {
                assert(field_models_of(params@) + rest_opt->Some_0 =~= rest_opt->Some_0);
            }
        }
        while i < n
            invariant
                0 <= i <= n,
                ei < self.auth_endpoints@.len(),
                sfields == self.auth_endpoints@[ei as int].1.parameters@,
                n == sfields.len(),
                auth_params_from(sfields, pv, 1) == match auth_params_from(
                    sfields.subrange(i as int, n as int),
                    pv,
                    1 + i,
                ) {
                    None => None::<Seq<(Seq<char>, JsonModel)>>,
                    Some(rest) => Some(field_models_of(params@) + rest),
                },
            decreases n - i,
        {
            proof {
                let suffix = sfields.subrange(i as int, n as int);
                assert(suffix[0] == sfields[i as int]);
                assert(suffix.drop_first() =~= sfields.subrange(i + 1, n as int));
            }
            let key_index = u64_to_dec((i as u64) + 1);
            let value = match lookup_handshake_field(&pairs, key_index.as_str()) {
                Some(v) => v,
                None => {
                    let mut m = String::from_str("Could not find param ");
                    m.append(schema.parameters[i].name.as_str());
                    m.append(" ");
                    m.append(key_index.as_str());
                    return Err(m);
                },
            };
            let coerced = match coerce_value(&schema.parameters[i].ty, value.as_str()) {
                Some(v) => v,
                None => {
                    let mut m = String::from_str("Failed to decode param ");
                    m.append(schema.parameters[i].name.as_str());
                    m.append(": ");
                    m.append(value.as_str());
                    return Err(m);
                },
            };
            let pname = to_camel_case(schema.parameters[i].name.as_str());
            let ghost oldp = params@;
            let ghost gj = coerced@;
            params.push((pname, coerced));
            proof {
                lemma_field_models_of(oldp);
                lemma_field_models_of(params@);
                assert(field_models_of(params@) =~= field_models_of(oldp).push(
                    (camel_of(sfields[i as int].name@), gj),
                ));
                let rest_opt = auth_params_from(sfields.subrange(i + 1, n as int), pv, 1 + i + 1);
                if rest_opt is Some {
                    assert(field_models_of(params@) + rest_opt->Some_0 =~= field_models_of(oldp)
                        + (seq![(camel_of(sfields[i as int].name@), gj)] + rest_opt->Some_0));
                }
            }
            i += 1;
        }
        proof {
            assert(sfields.subrange(n as int, n as int).len() == 0);
            assert(field_models_of(params@) + Seq::<(Seq<char>, JsonModel)>::empty()
                =~= field_models_of(params@));
        }
        let context = RequestContext {
            connection_id: conn.connection_id,
            user_id: 0,
            seq: 0,
            method: self.auth_endpoints[ei].1.code,
            log_id: conn.log_id,
        };
        Ok(AuthDispatch { context, params: JsonValue::Obj(params) })
    }
}

} // verus!
