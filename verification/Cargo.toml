[package]
name = "trifetch"
version = "0.1.0"
edition = "2021"
publish = false

[dependencies]
bson = "2"
dotenv = "0.15"
env_logger = { version = "0.9", default-features = false }
futures = { version = "0.3", default-features = false, features = ["std"] }
mongodb = "2"
near-jsonrpc-client = "*"
near-jsonrpc-primitives = "*"
near-primitives = "*"
postgrest = "1"
serde = { version = "1", features = ["derive"] }
serde_json = "1"
tokio = { version = "1", features = ["macros", "rt-multi-thread"] }
