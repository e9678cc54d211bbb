[package]
name = "proof-helper"
version = "0.1.0"
edition = "2021"
publish = false

[dependencies]
alloy-primitives = "1"
alloy-rlp = "0.3"
alloy-trie = "0.9"
nybbles = { version = "0.4", features = ["rlp"] }
async-trait = "0.1"
auto_impl = "1"
aws-config = { version = "1", default-features = false, features = ["rt-tokio"] }
aws-sdk-dynamodb = { version = "1", default-features = false, features = ["rt-tokio"] }
eyre = "0.6"
futures-util = "0.3"
reth-codecs = "0.8"
rusqlite = { version = "0.37", features = ["bundled"] }
serde = { version = "1", features = ["derive"] }
thiserror = "2"
tokio = { version = "1", features = ["rt", "macros", "sync"] }
toml = "0.9"
tracing = "0.1"
