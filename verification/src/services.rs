//! The user service's catalog: its endpoint schemas and the configuration
//! and activity types its handlers work with.
use crate::endpoint::{EndpointSchema, Field, ProceduralFunction, Service, Type};
use vstd::prelude::*;

verus! {

/// The schema of the CRM-lead endpoint: code 20660 with four string
/// parameters and no return fields.
pub fn endpoint_user_add_crm_lead() -> (r: EndpointSchema)
    ensures
        r.name@ == "AddCrmLead"@,
        r.code == 20660,
        r.parameters@.len() == 4,
        r.parameters@[0].name@ == "email"@ && r.parameters@[0].ty is String,
        r.parameters@[1].name@ == "username"@ && r.parameters@[1].ty is String,
        r.parameters@[2].name@ == "title"@ && r.parameters@[2].ty is String,
        r.parameters@[3].name@ == "message"@ && r.parameters@[3].ty is String,
        r.returns@.len() == 0,
{
    let mut parameters: Vec<Field> = Vec::new();
    parameters.push(Field::new(String::from_str("email"), Type::String));
    parameters.push(Field::new(String::from_str("username"), Type::String));
    parameters.push(Field::new(String::from_str("title"), Type::String));
    parameters.push(Field::new(String::from_str("message"), Type::String));
    EndpointSchema::new(String::from_str("AddCrmLead"), 20660, parameters, Vec::new())
}

/// The user service's endpoints.
pub fn get_user_endpoints() -> (r: Vec<EndpointSchema>)
    ensures
        r@.len() == 1,
        r@[0].code == 20660,
        r@[0].name@ == "AddCrmLead"@,
{
    let mut endpoints: Vec<EndpointSchema> = Vec::new();
    endpoints.push(endpoint_user_add_crm_lead());
    endpoints
}

/// Every service this process serves: the user service, id 2, with its
/// endpoints.
pub fn get_services() -> (r: Vec<Service>)
    ensures
        r@.len() == 1,
        r@[0].name@ == "user"@,
        r@[0].id == 2,
        r@[0].endpoints@.len() == 1,
        r@[0].endpoints@[0].code == 20660,
{
    let mut services: Vec<Service> = Vec::new();
    services.push(Service::new(String::from_str("user"), 2, get_user_endpoints()));
    services
}

/// Every database procedure the services declare; the user service declares
/// none.
pub fn get_proc_functions() -> (r: Vec<ProceduralFunction>)
    ensures
        r@.len() == 0,
{
    Vec::new()
}

/// The user service's own configuration: the CRM company and its API token.
#[derive(Debug)]
pub struct UserConfig {
    pub pipedrive_company: String,
    pub pipedrive_api_token: String,
}

/// The activity kinds the user service records.
#[derive(Clone, Copy, Debug, PartialEq, Eq, Structural, Hash)]
pub enum ActivityType {
    TransferProposed,
    TransferApproved,
    TransferStarted,
    TransferCompleted,
    Mint,
    Approve,
}

impl ActivityType {
    /// The activity kind's name, as it is logged and serialized.
    pub fn as_str(&self) -> (r: &'static str)
        ensures
            match self {
                ActivityType::TransferProposed => r@ == "TransferProposed"@,
                ActivityType::TransferApproved => r@ == "TransferApproved"@,
                ActivityType::TransferStarted => r@ == "TransferStarted"@,
                ActivityType::TransferCompleted => r@ == "TransferCompleted"@,
                ActivityType::Mint => r@ == "Mint"@,
                ActivityType::Approve => r@ == "Approve"@,
            },
    {
        match self {
            ActivityType::TransferProposed => "TransferProposed",
            ActivityType::TransferApproved => "TransferApproved",
            ActivityType::TransferStarted => "TransferStarted",
            ActivityType::TransferCompleted => "TransferCompleted",
            ActivityType::Mint => "Mint",
            ActivityType::Approve => "Approve",
        }
    }
}

} // verus!
