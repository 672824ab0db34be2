//! Static endpoint descriptors: the schema/catalog layer supplies one per
//! RPC method, registered once at startup and immutable afterwards.
use vstd::prelude::*;

verus! {

/// The closed set of field types the core interprets.
#[derive(Debug)]
pub enum Type {
    String,
    Int,
    Boolean,
    Enum { name: String, variants: Vec<String> },
    UUID,
}

/// One named, typed parameter or return field.
#[derive(Debug)]
pub struct Field {
    pub name: String,
    pub ty: Type,
}

impl Field {
    pub fn new(name: String, ty: Type) -> (r: Self)
        ensures
            r.name == name,
            r.ty == ty,
    {
        Self { name, ty }
    }
}

/// Static descriptor of one RPC method: its name, numeric code, and ordered
/// typed parameter, return and stream-response fields.
#[derive(Debug)]
pub struct EndpointSchema {
    pub name: String,
    pub code: u32,
    pub parameters: Vec<Field>,
    pub returns: Vec<Field>,
    pub stream_response: Vec<Field>,
    pub description: String,
}

impl EndpointSchema {
    pub fn new(name: String, code: u32, parameters: Vec<Field>, return_fields: Vec<Field>) -> (r:
        Self)
        ensures
            r.name == name,
            r.code == code,
            r.parameters == parameters,
            r.returns == return_fields,
            r.stream_response@.len() == 0,
            r.description@.len() == 0,
    {
        Self {
            name,
            code,
            parameters,
            returns: return_fields,
            stream_response: Vec::new(),
            description: String::new(),
        }
    }

    pub fn with_stream_response(self, stream_response: Vec<Field>) -> (r: Self)
        ensures
            r.name == self.name,
            r.code == self.code,
            r.parameters == self.parameters,
            r.returns == self.returns,
            r.stream_response == stream_response,
            r.description == self.description,
    {
        Self { stream_response, ..self }
    }
}

/// A named group of endpoints with its service id.
#[derive(Debug)]
pub struct Service {
    pub name: String,
    pub id: u32,
    pub endpoints: Vec<EndpointSchema>,
}

impl Service {
    pub fn new(name: String, id: u32, endpoints: Vec<EndpointSchema>) -> (r: Self)
        ensures
            r.name == name,
            r.id == id,
            r.endpoints == endpoints,
    {
        Self { name, id, endpoints }
    }
}

/// Descriptor of one database procedure the schema layer generates.
#[derive(Debug)]
pub struct ProceduralFunction {
    pub name: String,
    pub parameters: Vec<Field>,
    pub returns: Vec<Field>,
}

} // verus!
