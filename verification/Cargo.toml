[package]
name = "flashblocks"
version = "0.1.0"
edition = "2021"
publish = false

[dependencies]
alloy-consensus = { version = "=2.5.0", features = ["k256"] }
alloy-eips = "=2.5.0"
alloy-primitives = "=1.7.3"
alloy-rpc-types-engine = "=2.5.0"
eyre = "=0.6.14"
futures-util = "=0.3.34"
metrics = "=0.24.6"
op-alloy-consensus = { version = "=2.0.0", features = ["k256", "reth-core"] }
op-alloy-rpc-types-engine = "=2.0.0"
reth-primitives-traits = "=0.8.2"
ringbuffer = "=0.16.0"
tokio = { version = "=1.54.1", features = ["sync", "macros", "rt"] }
tracing = "=0.1.44"
