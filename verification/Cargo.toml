[package]
name = "pg_gateway"
version = "0.1.0"
edition = "2021"
publish = false

[dependencies]
serde_json = "1"
sqlparser = { version = "*", features = ["visitor"] }
pgwire = "*"
tokio = { version = "1", features = ["sync", "rt", "macros", "time"] }
futures = "0.3"
async-trait = "0.1"
log = "0.4"
