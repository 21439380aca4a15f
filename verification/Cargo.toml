[package]
name = "eloop"
version = "0.1.0"
edition = "2021"
publish = false

[dependencies]
chrono = "*"
clap = "*"
diesel = { version = "*", features = ["sqlite", "chrono"] }
dirs = "*"
libsqlite3-sys = { version = "*", features = ["bundled"] }
reqwest = { version = "*", default-features = false, features = ["blocking", "json", "rustls-tls"] }
serde = { version = "*", features = ["derive"] }
serde_json = "*"
