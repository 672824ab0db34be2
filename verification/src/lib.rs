//! Core of a generic RPC server: connection identity, method dispatch,
//! response construction and error classification, handshake-based
//! authentication, and topic-based publish/subscribe with per-subscriber
//! sequencing. Transports (sockets, HTTP) drive this core from the outside;
//! every decision the core makes is specified and verified here.
#![verifier::loop_isolation(false)]

pub mod basics;
pub mod conn;
pub mod endpoint;
pub mod error_code;
pub mod headers;
pub mod http;
pub mod json;
pub mod push;
pub mod server;
pub mod services;
pub mod text;
pub mod toolbox;
pub mod utils;
