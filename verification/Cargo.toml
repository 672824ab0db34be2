[package]
name = "rpc_core"
version = "0.1.0"
edition = "2021"
publish = false

[dependencies]
serde_json = "1"
urlencoding = "2"
convert_case = "0.6"
serde = { version = "1", features = ["derive"] }
tokio = { version = "1", features = ["rt-multi-thread", "macros", "net", "sync", "time", "io-util"] }
tokio-tungstenite = "0.20"
futures = "0.3"
hyper = { version = "0.14", features = ["server", "http1", "runtime"] }
chrono = "0.4"
rustls = "0.21"
tokio-rustls = "0.24"
rustls-pemfile = "1"
reqwest = { version = "0.11", default-features = false, features = ["json"] }
