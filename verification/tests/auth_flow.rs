use rpc_core::basics::Connection;
use rpc_core::endpoint::{EndpointSchema, Field, Type};
use rpc_core::headers::{
    first_protocol_candidate, parse_handshake_fields, EndpointAuthController, SimpleAuthContoller,
};
use rpc_core::json::JsonValue;

fn test_connection(id: u32, log_id: u64) -> Connection {
    Connection {
        connection_id: id,
        user_id: 0,
        role: 0,
        address: "127.0.0.1:4000".to_string(),
        log_id,
    }
}

fn auth_endpoint(name: &str, code: u32, params: Vec<(&str, Type)>) -> EndpointSchema {
    let mut fields: Vec<Field> = Vec::new();
    for (n, ty) in params {
        fields.push(Field::new(n.to_string(), ty));
    }
    EndpointSchema::new(name.to_string(), code, fields, Vec::new())
}

#[test]
fn handshake_parses_positional_fields_and_dispatches() {
    let mut controller = EndpointAuthController::new();
    controller.add_auth_endpoint(auth_endpoint(
        "=5",
        5,
        vec![("email", Type::String), ("username", Type::String)],
    ));
    let conn = test_connection(3, 17);

    let d = controller.auth("0=5,1alice@example.com,2alice", &conn).unwrap();
    assert_eq!(d.context.method, 5);
    assert_eq!(d.context.connection_id, 3);
    assert_eq!(d.context.user_id, 0);
    assert_eq!(d.context.seq, 0);
    assert_eq!(d.context.log_id, 17);
    assert_eq!(
        d.params,
        JsonValue::Obj(vec![
            ("email".to_string(), JsonValue::Str("alice@example.com".to_string())),
            ("username".to_string(), JsonValue::Str("alice".to_string())),
        ])
    );
}

#[test]
fn handshake_percent_decodes_string_parameters() {
    let mut controller = EndpointAuthController::new();
    controller.add_auth_endpoint(auth_endpoint("=5", 5, vec![("email", Type::String)]));
    let conn = test_connection(1, 1);
    let d = controller.auth("0=5,1alice%40example.com", &conn).unwrap();
    assert_eq!(
        d.params,
        JsonValue::Obj(vec![(
            "email".to_string(),
            JsonValue::Str("alice@example.com".to_string()),
        )])
    );
}

#[test]
fn handshake_coerces_int_and_boolean() {
    let mut controller = EndpointAuthController::new();
    controller.add_auth_endpoint(auth_endpoint(
        "=7",
        7,
        vec![("count", Type::Int), ("active", Type::Boolean)],
    ));
    let conn = test_connection(1, 1);
    let d = controller.auth("0=7,1-42,2true", &conn).unwrap();
    assert_eq!(
        d.params,
        JsonValue::Obj(vec![
            ("count".to_string(), JsonValue::Int(-42)),
            ("active".to_string(), JsonValue::Bool(true)),
        ])
    );
    assert!(controller.auth("0=7,1x,2true", &conn).is_err());
    assert!(controller.auth("0=7,1-42,2yes", &conn).is_err());
}

#[test]
fn handshake_remaps_legacy_service_codes() {
    let mut controller = EndpointAuthController::new();
    let service_ty = || Type::Enum { name: "service".to_string(), variants: Vec::new() };
    controller.add_auth_endpoint(auth_endpoint("=9", 9, vec![("service", service_ty())]));
    let conn = test_connection(1, 1);

    let user = controller.auth("0=9,12", &conn).unwrap();
    assert_eq!(
        user.params,
        JsonValue::Obj(vec![("service".to_string(), JsonValue::Str("User".to_string()))])
    );
    let admin = controller.auth("0=9,13", &conn).unwrap();
    assert_eq!(
        admin.params,
        JsonValue::Obj(vec![("service".to_string(), JsonValue::Str("Admin".to_string()))])
    );
    let other = controller.auth("0=9,1ops", &conn).unwrap();
    assert_eq!(
        other.params,
        JsonValue::Obj(vec![("service".to_string(), JsonValue::Str("ops".to_string()))])
    );
}

#[test]
fn handshake_camel_cases_parameter_names() {
    let mut controller = EndpointAuthController::new();
    controller.add_auth_endpoint(auth_endpoint("=8", 8, vec![("user_name", Type::String)]));
    let conn = test_connection(1, 1);
    let d = controller.auth("0=8,1bob", &conn).unwrap();
    assert_eq!(
        d.params,
        JsonValue::Obj(vec![("userName".to_string(), JsonValue::Str("bob".to_string()))])
    );
}

#[test]
fn handshake_failures_deny_the_attempt() {
    let mut controller = EndpointAuthController::new();
    controller.add_auth_endpoint(auth_endpoint(
        "=5",
        5,
        vec![("email", Type::String), ("username", Type::String)],
    ));
    let conn = test_connection(1, 1);
    // No method field.
    assert!(controller.auth("1alice,2bob", &conn).is_err());
    // Unknown method key.
    assert!(controller.auth("0zz,1alice,2bob", &conn).is_err());
    // Missing declared parameter.
    assert!(controller.auth("0=5,1alice", &conn).is_err());
    // Empty header.
    assert!(controller.auth("", &conn).is_err());
}

#[test]
fn handshake_endpoint_names_are_lowercased_at_registration() {
    let mut controller = EndpointAuthController::new();
    controller.add_auth_endpoint(auth_endpoint("Login", 11, vec![("email", Type::String)]));
    let conn = test_connection(1, 1);
    let d = controller.auth("0login,1a@b.c", &conn).unwrap();
    assert_eq!(d.context.method, 11);
    // The name as registered (before lowercasing) does not resolve.
    assert!(controller.auth("0Login,1a@b.c", &conn).is_err());
}

#[test]
fn handshake_last_occurrence_of_a_key_wins() {
    let mut controller = EndpointAuthController::new();
    controller.add_auth_endpoint(auth_endpoint("=5", 5, vec![("email", Type::String)]));
    let conn = test_connection(1, 1);
    let d = controller.auth("0=5,1first,1second", &conn).unwrap();
    assert_eq!(
        d.params,
        JsonValue::Obj(vec![("email".to_string(), JsonValue::Str("second".to_string()))])
    );
}

#[test]
fn handshake_fields_trim_and_drop_empty() {
    let pairs = parse_handshake_fields(" 0=5 , , 1alice ,");
    assert_eq!(
        pairs,
        vec![
            ("0".to_string(), "=5".to_string()),
            ("1".to_string(), "alice".to_string()),
        ]
    );
}

#[test]
fn simple_controller_always_allows() {
    let controller = SimpleAuthContoller;
    let conn = test_connection(1, 1);
    assert!(controller.auth("anything", &conn).is_ok());
}

#[test]
fn protocol_echo_takes_first_candidate() {
    assert_eq!(first_protocol_candidate("chat, superchat"), "chat".to_string());
    assert_eq!(first_protocol_candidate(""), "".to_string());
    assert_eq!(first_protocol_candidate("one"), "one".to_string());
}
