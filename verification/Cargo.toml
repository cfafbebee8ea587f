[package]
name = "exex_examples"
version = "0.1.0"
edition = "2021"
publish = false

[dependencies]
alloy-primitives = { version = "=1.7.3", features = ["k256"] }
alloy-eips = "=2.5.0"
alloy-consensus = { version = "=2.5.0", features = ["k256"] }
alloy-signer = "=2.5.0"
alloy-signer-local = "=2.5.0"
alloy-sol-types = "=1.7.3"
clap = { version = "=4.6.7", features = ["derive"] }
serde = { version = "=1.0.229", features = ["derive"] }
serde_json = "=1.0.154"
eyre = "=0.6.14"
base64 = "=0.23.1"
tokio = { version = "=1.54.1", features = ["rt-multi-thread", "macros", "sync"] }
reqwest = { version = "=0.13.5", default-features = false, features = ["json"] }

[dev-dependencies]
alloy-rlp = "=0.3.17"
