use rpc_core::basics::{RequestContext, WsResponse};
use rpc_core::error_code::{CustomError, ErrorCode, NoResp};
use rpc_core::json::JsonValue;
use rpc_core::server::{check_name, wrap_ws_error};
use rpc_core::services::{get_proc_functions, get_services, ActivityType, UserConfig};
use rpc_core::toolbox::{response_for, HandlerResult};
use rpc_core::utils::IdGenerator;

fn test_context(log_id: u64) -> RequestContext {
    RequestContext { connection_id: 1, user_id: 0, seq: 7, method: 20660, log_id }
}

fn expect_error(r: Option<WsResponse>) -> (u32, u32, String, JsonValue) {
    match r {
        Some(WsResponse::Error(e)) => (e.method, e.code, e.log_id, e.params),
        other => panic!("expected an error response, got {:?}", other),
    }
}

#[test]
fn success_becomes_immediate() {
    let ctx = test_context(3);
    match response_for(&ctx, HandlerResult::Success(JsonValue::Int(5))) {
        Some(WsResponse::Immediate(x)) => {
            assert_eq!(x.method, 20660);
            assert_eq!(x.seq, 7);
            assert_eq!(x.params, JsonValue::Int(5));
        },
        other => panic!("expected an immediate response, got {:?}", other),
    }
}

#[test]
fn no_response_sentinel_is_suppressed() {
    let ctx = test_context(3);
    assert!(response_for(&ctx, HandlerResult::NoResponse).is_none());
    let _marker = NoResp;
}

#[test]
fn database_error_with_decodable_code_uses_it() {
    let ctx = test_context(3);
    let r = response_for(
        &ctx,
        HandlerResult::Database { code: Some("R0001".to_string()), message: "boom".to_string() },
    );
    let (method, code, log_id, params) = expect_error(r);
    assert_eq!(method, 20660);
    assert_eq!(code, 45349633);
    assert_eq!(log_id, "3".to_string());
    assert_eq!(params, JsonValue::Str("boom".to_string()));
}

#[test]
fn database_error_with_bad_code_falls_back() {
    let ctx = test_context(3);
    let r = response_for(
        &ctx,
        HandlerResult::Database { code: Some("??".to_string()), message: "boom".to_string() },
    );
    let (_, code, _, params) = expect_error(r);
    assert_eq!(code, 100601);
    assert_eq!(params, JsonValue::Null);

    let r = response_for(
        &ctx,
        HandlerResult::Database { code: None, message: "boom".to_string() },
    );
    let (_, code, _, params) = expect_error(r);
    assert_eq!(code, 100601);
    assert_eq!(params, JsonValue::Null);
}

#[test]
fn domain_error_passes_through_verbatim() {
    let ctx = test_context(3);
    let e = CustomError::new(ErrorCode::new(101404), JsonValue::Str("who?".to_string()));
    let r = response_for(&ctx, HandlerResult::Domain(e));
    let (_, code, _, params) = expect_error(r);
    assert_eq!(code, 101404);
    assert_eq!(params, JsonValue::Str("who?".to_string()));
}

#[test]
fn anything_else_is_internal_server_error() {
    let ctx = test_context(3);
    let (_, code, log_id, params) = expect_error(response_for(&ctx, HandlerResult::Other));
    assert_eq!(code, 100500);
    assert!(!log_id.is_empty());
    assert_eq!(params, JsonValue::Null);
}

#[test]
fn sql_error_decoding() {
    let e = CustomError::from_sql_error("R0007", "unknown user").unwrap();
    assert_eq!(e.code.to_u32(), 45349639);
    assert_eq!(e.params, JsonValue::Str("unknown user".to_string()));
    assert!(CustomError::from_sql_error("!!", "x").is_none());
}

#[test]
fn name_convention_check() {
    assert!(check_name("Handler", "user::AddCrmLeadHandler", "AddCrmLeadHandler").is_ok());
    let err = check_name("Handler", "user::OtherHandler", "AddCrmLeadHandler").unwrap_err();
    assert_eq!(
        err,
        "Handler name should be AddCrmLeadHandler but got user::OtherHandler".to_string()
    );
}

#[test]
fn ws_error_wrapping() {
    let ok: Result<i32, tokio_tungstenite::tungstenite::Error> = Ok(5);
    assert_eq!(wrap_ws_error(ok), Ok(5));
    let err: Result<i32, tokio_tungstenite::tungstenite::Error> =
        Err(tokio_tungstenite::tungstenite::Error::ConnectionClosed);
    assert!(wrap_ws_error(err).is_err());
}

#[test]
fn service_catalog() {
    let services = get_services();
    assert_eq!(services.len(), 1);
    assert_eq!(services[0].name, "user".to_string());
    assert_eq!(services[0].id, 2);
    assert_eq!(services[0].endpoints.len(), 1);
    assert_eq!(services[0].endpoints[0].code, 20660);
    assert_eq!(services[0].endpoints[0].name, "AddCrmLead".to_string());
    assert_eq!(services[0].endpoints[0].parameters.len(), 4);
    assert!(get_proc_functions().is_empty());
}

#[test]
fn activity_and_config_types() {
    assert_eq!(ActivityType::Mint.as_str(), "Mint");
    assert_eq!(ActivityType::TransferProposed.as_str(), "TransferProposed");
    assert_ne!(ActivityType::Mint, ActivityType::Approve);
    let cfg = UserConfig {
        pipedrive_company: "acme".to_string(),
        pipedrive_api_token: "t".to_string(),
    };
    assert_eq!(cfg.pipedrive_company, "acme".to_string());
}

#[test]
fn id_generation_is_monotonic() {
    let mut ids = IdGenerator::new();
    let a = ids.get_conn_id();
    let b = ids.get_conn_id();
    assert_eq!(b, a + 1);
    let x = ids.get_log_id();
    let y = ids.get_log_id();
    assert_eq!(y, x + 1);
}
