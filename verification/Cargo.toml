[package]
name = "vimwiki"
version = "0.1.0"
edition = "2021"
publish = false

[dependencies]
chrono = { version = "=0.4.45", default-features = false, features = ["std"] }
uriparse = "=0.6.4"
serde = { version = "=1.0.229", features = ["derive"] }
async-graphql = { version = "=7.2.1", default-features = false, features = ["chrono"] }
proc-macro2 = "=1.0.107"
quote = "=1.0.47"
