use rpc_core::basics::{
    Connection, WsRequest, WsResponse, WsResponseError, WsSuccessResponse,
};
use rpc_core::json::JsonValue;
use rpc_core::server::{FlushAction, ReadAction, WebsocketServer, WsMessageEvent};
use rpc_core::services::endpoint_user_add_crm_lead;
use rpc_core::toolbox::HandlerResult;

fn test_connection(id: u32, log_id: u64) -> Connection {
    Connection {
        connection_id: id,
        user_id: 0,
        role: 0,
        address: "127.0.0.1:4000".to_string(),
        log_id,
    }
}

fn server_with_endpoint() -> WebsocketServer {
    let mut server = WebsocketServer::new();
    server.toolbox.set_ws_states(false);
    server.add_handler(endpoint_user_add_crm_lead()).unwrap();
    server
}

#[test]
fn duplicate_method_code_is_refused() {
    let mut server = WebsocketServer::new();
    assert!(server.add_handler(endpoint_user_add_crm_lead()).is_ok());
    let second = server.add_handler(endpoint_user_add_crm_lead());
    assert!(second.is_err());
    let msg = second.unwrap_err();
    assert!(msg.contains("20660"));
}

#[test]
fn malformed_json_yields_one_bad_request_and_keeps_connection() {
    let mut server = server_with_endpoint();
    server.on_connection_open(7);
    let conn = test_connection(7, 99);

    let action = server.handle_incoming(&conn, WsMessageEvent::Text("{oops".to_string()));
    assert!(matches!(action, ReadAction::Continue));

    match server.toolbox.states.pop_msg(7) {
        Some(WsResponse::Error(e)) => {
            assert_eq!(e.code, 100400);
            assert_eq!(e.seq, 0);
            assert_eq!(e.method, 0);
            assert_eq!(e.log_id, "99".to_string());
            assert!(matches!(e.params, JsonValue::Str(_)));
        },
        other => panic!("expected one BadRequest error, got {:?}", other),
    }
    // Exactly one response, and the connection is still registered and usable.
    assert!(server.toolbox.states.pop_msg(7).is_none());
    assert!(server.toolbox.states.contains_conn(7));
    let ok_frame = "{\"method\":20660,\"seq\":2,\"params\":{}}".to_string();
    let action = server.handle_incoming(&conn, WsMessageEvent::Text(ok_frame));
    assert!(matches!(action, ReadAction::Dispatch(_, _)));
}

#[test]
fn binary_frames_are_parsed_too() {
    let mut server = server_with_endpoint();
    server.on_connection_open(4);
    let conn = test_connection(4, 5);
    let frame = b"{\"method\":20660,\"seq\":9,\"params\":null}".to_vec();
    let action = server.handle_incoming(&conn, WsMessageEvent::Binary(frame));
    match action {
        ReadAction::Dispatch(ctx, req) => {
            assert_eq!(ctx.seq, 9);
            assert_eq!(req.params, JsonValue::Null);
        },
        other => panic!("expected dispatch, got {:?}", other),
    }
}

#[test]
fn unknown_method_yields_one_not_implemented() {
    let mut server = server_with_endpoint();
    server.on_connection_open(7);
    let conn = test_connection(7, 99);

    let frame = "{\"method\":555,\"seq\":3,\"params\":{}}".to_string();
    let action = server.handle_incoming(&conn, WsMessageEvent::Text(frame));
    assert!(matches!(action, ReadAction::Continue));

    match server.toolbox.states.pop_msg(7) {
        Some(WsResponse::Error(e)) => {
            assert_eq!(e.code, 100501);
            assert_eq!(e.method, 555);
            assert_eq!(e.seq, 3);
            assert_eq!(e.params, JsonValue::Null);
        },
        other => panic!("expected one NotImplemented error, got {:?}", other),
    }
    assert!(server.toolbox.states.pop_msg(7).is_none());
    assert!(server.toolbox.states.contains_conn(7));
}

#[test]
fn pings_and_pongs_are_ignored_and_close_terminates() {
    let mut server = server_with_endpoint();
    server.on_connection_open(7);
    let conn = test_connection(7, 99);
    assert!(matches!(
        server.handle_incoming(&conn, WsMessageEvent::Ping),
        ReadAction::Continue
    ));
    assert!(matches!(
        server.handle_incoming(&conn, WsMessageEvent::Pong),
        ReadAction::Continue
    ));
    assert!(server.toolbox.states.pop_msg(7).is_none());
    assert!(matches!(
        server.handle_incoming(&conn, WsMessageEvent::CloseFrame),
        ReadAction::Terminate
    ));
    assert!(matches!(
        server.handle_incoming(&conn, WsMessageEvent::ReadError),
        ReadAction::Terminate
    ));
}

#[test]
fn successful_call_yields_single_immediate_response() {
    let mut server = server_with_endpoint();
    server.on_connection_open(7);
    let conn = test_connection(7, 99);

    let body = "{\"method\":20660,\"seq\":1,\"params\":{\"email\":\"a@b.com\",\"username\":\"a\",\"title\":\"t\",\"message\":\"m\"}}";
    let action = server.handle_incoming(&conn, WsMessageEvent::Text(body.to_string()));
    let (ctx, req) = match action {
        ReadAction::Dispatch(ctx, req) => (ctx, req),
        other => panic!("expected dispatch, got {:?}", other),
    };
    assert_eq!(ctx.method, 20660);
    assert_eq!(ctx.seq, 1);
    assert_eq!(
        req,
        WsRequest {
            method: 20660,
            seq: 1,
            params: JsonValue::Obj(vec![
                ("email".to_string(), JsonValue::Str("a@b.com".to_string())),
                ("message".to_string(), JsonValue::Str("m".to_string())),
                ("title".to_string(), JsonValue::Str("t".to_string())),
                ("username".to_string(), JsonValue::Str("a".to_string())),
            ]),
        }
    );

    // The handler completes successfully with an empty object.
    let sent = server.toolbox.complete_response(&ctx, HandlerResult::Success(JsonValue::Obj(
        vec![],
    )));
    assert!(sent);
    let resp = server.toolbox.states.pop_msg(7).unwrap();
    assert_eq!(
        resp,
        WsResponse::Immediate(WsSuccessResponse {
            method: 20660,
            seq: 1,
            params: JsonValue::Obj(vec![]),
        })
    );
    assert!(server.toolbox.states.pop_msg(7).is_none());
}

#[test]
fn failing_downstream_yields_internal_error_without_detail() {
    let mut server = server_with_endpoint();
    server.on_connection_open(7);
    let conn = test_connection(7, 99);

    let body = "{\"method\":20660,\"seq\":1,\"params\":{\"email\":\"a@b.com\",\"username\":\"a\",\"title\":\"t\",\"message\":\"m\"}}";
    let action = server.handle_incoming(&conn, WsMessageEvent::Text(body.to_string()));
    let ctx = match action {
        ReadAction::Dispatch(ctx, _) => ctx,
        other => panic!("expected dispatch, got {:?}", other),
    };

    // The handler's downstream dependency fails with a generic error; the
    // raw failure text must never reach the wire.
    let sent = server.toolbox.complete_response(&ctx, HandlerResult::Other);
    assert!(sent);
    let resp = server.toolbox.states.pop_msg(7).unwrap();
    assert_eq!(
        resp,
        WsResponse::Error(WsResponseError {
            method: 20660,
            code: 100500,
            seq: 1,
            log_id: "99".to_string(),
            params: JsonValue::Null,
        })
    );
    assert!(server.toolbox.states.pop_msg(7).is_none());
}

#[test]
fn no_response_sentinel_suppresses_reply() {
    let mut server = server_with_endpoint();
    server.on_connection_open(7);
    let conn = test_connection(7, 99);
    let frame = "{\"method\":20660,\"seq\":1,\"params\":{}}".to_string();
    let ctx = match server.handle_incoming(&conn, WsMessageEvent::Text(frame)) {
        ReadAction::Dispatch(ctx, _) => ctx,
        other => panic!("expected dispatch, got {:?}", other),
    };
    let sent = server.toolbox.complete_response(&ctx, HandlerResult::NoResponse);
    assert!(!sent);
    assert!(server.toolbox.states.pop_msg(7).is_none());
}

#[test]
fn send_to_gone_connection_reports_false() {
    let mut server = server_with_endpoint();
    server.on_connection_open(7);
    let conn = test_connection(7, 99);
    let frame = "{\"method\":20660,\"seq\":1,\"params\":{}}".to_string();
    let ctx = match server.handle_incoming(&conn, WsMessageEvent::Text(frame)) {
        ReadAction::Dispatch(ctx, _) => ctx,
        other => panic!("expected dispatch, got {:?}", other),
    };
    // The client disconnects before the handler completes; the late send is
    // a harmless no-op.
    server.on_connection_close(7);
    let sent = server.toolbox.complete_response(&ctx, HandlerResult::Success(JsonValue::Null));
    assert!(!sent);
}

#[test]
fn flush_is_fifo_and_close_sentinel_deregisters() {
    let mut server = server_with_endpoint();
    server.on_connection_open(7);
    let conn = test_connection(7, 99);
    let first = "{\"method\":555,\"seq\":1,\"params\":{}}".to_string();
    let second = "{\"method\":556,\"seq\":2,\"params\":{}}".to_string();
    server.handle_incoming(&conn, WsMessageEvent::Text(first));
    server.handle_incoming(&conn, WsMessageEvent::Text(second));
    match server.flush_next(7) {
        FlushAction::Write(WsResponse::Error(e)) => assert_eq!(e.method, 555),
        other => panic!("expected first queued error, got {:?}", other),
    }
    match server.flush_next(7) {
        FlushAction::Write(WsResponse::Error(e)) => assert_eq!(e.method, 556),
        other => panic!("expected second queued error, got {:?}", other),
    }
    assert!(matches!(server.flush_next(7), FlushAction::Idle));

    // Single-shot delivery appends the Close sentinel, which deregisters.
    server.toolbox.set_ws_states(true);
    let frame = "{\"method\":557,\"seq\":3,\"params\":{}}".to_string();
    server.handle_incoming(&conn, WsMessageEvent::Text(frame));
    assert!(matches!(server.flush_next(7), FlushAction::Write(_)));
    assert!(matches!(server.flush_next(7), FlushAction::Close));
    assert!(!server.toolbox.states.contains_conn(7));
}
