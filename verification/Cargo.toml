[package]
name = "pool_loader"
version = "0.1.0"
edition = "2021"
publish = false

[dependencies]
alloy = { version = "0.5", default-features = false, features = ["std", "providers", "provider-ws", "rpc-types", "contract", "sol-types"] }
async-trait = "0.1"
eyre = "0.6"
serde = { version = "1", features = ["derive"] }
serde_json = "1"
tokio = { version = "1", features = ["rt-multi-thread", "macros", "sync", "time"] }
tracing = "0.1"
tracing-subscriber = { version = "0.3", default-features = false, features = ["fmt", "std"] }
