[package]
name = "bee_tangle"
version = "0.1.0"
edition = "2021"
publish = false

[dependencies]
packable = "=0.11.0"
primitive-types = "=0.14.0"
rand = "=0.8.8"
fern = { version = "=0.7.1", features = ["colored"] }
log = "=0.4.34"
thiserror = "=2.0.21"
serde = { version = "=1.0.229", features = ["derive"] }
derive_more = { version = "=2.1.1", features = ["deref"] }
tokio = { version = "=1.54.1", features = ["io-util", "macros", "process", "rt", "sync", "time"] }
tonic = "=0.14.6"
tracing-subscriber = "=0.3.23"
console-subscriber = "=0.5.0"
