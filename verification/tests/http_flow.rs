use rpc_core::basics::{
    Connection, RequestContext, WsForwardedResponse, WsResponse, WsResponseError,
    WsSuccessResponse,
};
use rpc_core::http::{http_response_of, HttpBody, HttpServer};
use rpc_core::json::JsonValue;
use rpc_core::services::endpoint_user_add_crm_lead;
use rpc_core::toolbox::HandlerResult;

fn test_connection(id: u32, log_id: u64) -> Connection {
    Connection {
        connection_id: id,
        user_id: 0,
        role: 0,
        address: "127.0.0.1:4000".to_string(),
        log_id,
    }
}

fn test_context(log_id: u64) -> RequestContext {
    RequestContext { connection_id: 1, user_id: 0, seq: 1, method: 20660, log_id }
}

#[test]
fn duplicate_endpoint_name_is_refused() {
    let mut server = HttpServer::new();
    assert!(server.add_handler(endpoint_user_add_crm_lead()).is_ok());
    assert!(server.add_handler(endpoint_user_add_crm_lead()).is_err());
}

#[test]
fn unknown_path_is_404_with_message() {
    let mut server = HttpServer::new();
    server.add_handler(endpoint_user_add_crm_lead()).unwrap();
    let conn = test_connection(1, 9);
    let r = server.dispatch_http(&conn, "/Nothing", &b"{}".to_vec(), 1);
    match r {
        Err(resp) => {
            assert_eq!(resp.status, 404);
            match resp.body {
                HttpBody::Text(m) => assert_eq!(m, "Endpoint Nothing not found".to_string()),
                other => panic!("expected text body, got {:?}", other),
            }
        },
        Ok(_) => panic!("expected a 404"),
    }
}

#[test]
fn malformed_body_is_400() {
    let mut server = HttpServer::new();
    server.add_handler(endpoint_user_add_crm_lead()).unwrap();
    let conn = test_connection(1, 9);
    let r = server.dispatch_http(&conn, "/AddCrmLead", &b"{nope".to_vec(), 1);
    match r {
        Err(resp) => {
            assert_eq!(resp.status, 400);
            assert!(matches!(resp.body, HttpBody::Text(_)));
        },
        Ok(_) => panic!("expected a 400"),
    }
}

#[test]
fn routed_request_carries_the_endpoint_context() {
    let mut server = HttpServer::new();
    server.add_handler(endpoint_user_add_crm_lead()).unwrap();
    let conn = test_connection(6, 9);
    let body = b"{\"email\":\"a@b.com\"}".to_vec();
    let (ctx, params) = server.dispatch_http(&conn, "/AddCrmLead", &body, 4).unwrap();
    assert_eq!(ctx.method, 20660);
    assert_eq!(ctx.seq, 4);
    assert_eq!(ctx.connection_id, 6);
    assert_eq!(ctx.log_id, 9);
    assert_eq!(
        params,
        JsonValue::Obj(vec![("email".to_string(), JsonValue::Str("a@b.com".to_string()))])
    );
}

#[test]
fn immediate_maps_to_200_with_payload() {
    let ctx = test_context(9);
    let resp = WsResponse::Immediate(WsSuccessResponse {
        method: 20660,
        seq: 1,
        params: JsonValue::Obj(vec![]),
    });
    let r = http_response_of(&ctx, resp);
    assert_eq!(r.status, 200);
    match r.body {
        HttpBody::Json(v) => assert_eq!(v, JsonValue::Obj(vec![])),
        other => panic!("expected json body, got {:?}", other),
    }
}

#[test]
fn error_maps_to_400_with_error_object() {
    let ctx = test_context(9);
    let resp = WsResponse::Error(WsResponseError {
        method: 20660,
        code: 100400,
        seq: 1,
        log_id: "9".to_string(),
        params: JsonValue::Null,
    });
    let r = http_response_of(&ctx, resp);
    assert_eq!(r.status, 400);
    match r.body {
        HttpBody::Json(v) => assert_eq!(
            v,
            JsonValue::Obj(vec![
                ("method".to_string(), JsonValue::Int(20660)),
                ("code".to_string(), JsonValue::Int(100400)),
                ("seq".to_string(), JsonValue::Int(1)),
                ("log_id".to_string(), JsonValue::Str("9".to_string())),
                ("params".to_string(), JsonValue::Null),
            ])
        ),
        other => panic!("expected json body, got {:?}", other),
    }
}

#[test]
fn other_variants_are_internal_errors_with_log_id_only() {
    let ctx = test_context(77);
    let resp = WsResponse::Forwarded(WsForwardedResponse { method: 1, seq: 2 });
    let r = http_response_of(&ctx, resp);
    assert_eq!(r.status, 500);
    match r.body {
        HttpBody::Text(m) => assert_eq!(m, "Internal Server Error: log_id=77".to_string()),
        other => panic!("expected text body, got {:?}", other),
    }
}

#[test]
fn http_single_shot_round_trip() {
    let mut server = HttpServer::new();
    server.toolbox.set_ws_states(true);
    server.add_handler(endpoint_user_add_crm_lead()).unwrap();
    let conn = test_connection(5, 9);
    server.toolbox.states.insert(5);
    let body = b"{\"email\":\"a@b.com\",\"username\":\"a\",\"title\":\"t\",\"message\":\"m\"}"
        .to_vec();
    let (ctx, _params) = server.dispatch_http(&conn, "/AddCrmLead", &body, 1).unwrap();
    let sent = server.toolbox.complete_response(&ctx, HandlerResult::Success(JsonValue::Obj(
        vec![],
    )));
    assert!(sent);
    let resp = server.toolbox.states.pop_msg(5).unwrap();
    let r = http_response_of(&ctx, resp);
    assert_eq!(r.status, 200);
    // Single-shot delivery queues the Close sentinel after the response.
    assert_eq!(server.toolbox.states.pop_msg(5).unwrap(), WsResponse::Close);
    assert!(server.toolbox.states.pop_msg(5).is_none());
}
