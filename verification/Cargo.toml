[package]
name = "deet"
version = "0.1.0"
edition = "2021"
publish = false

[dependencies]
rand = "0.7"
nix = { version = "0.29", features = ["ptrace", "signal", "process"] }
rustyline = "14"
tokio = { version = "1", features = ["net", "io-util", "sync", "time", "rt", "macros"] }
http = "1"
log = "0.4"
threadpool = "1"
crossbeam-channel = "0.5"
