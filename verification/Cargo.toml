[package]
name = "raftstore_proxy"
version = "0.1.0"
edition = "2021"
publish = false

[dependencies]
backtrace = "0.3"
fail = "0.5"
protobuf = "2"
raft = { version = "0.7", default-features = false, features = ["protobuf-codec"] }
tempfile = "3"
