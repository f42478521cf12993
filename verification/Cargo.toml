[package]
name = "eventsourced"
version = "0.1.0"
edition = "2021"
publish = false

[dependencies]
bytes = "1"
futures = "0.3"
thiserror = "1"
tokio = { version = "1", features = ["macros", "rt", "sync"] }
tracing = "0.1"
uuid = { version = "1", features = ["v7"] }

[dev-dependencies]
prost = { version = "0.11", default-features = false, features = ["std"] }
