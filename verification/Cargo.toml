[package]
name = "mincontainer"
version = "0.1.0"
edition = "2021"
publish = false

[dependencies]
caps = "0.5"
clap = { version = "4", features = ["derive"] }
libc = "0.2"
nix = { version = "0.29", features = ["fs", "hostname", "mount", "process", "sched", "signal"] }
seccompiler = "0.5"
serde = { version = "1", features = ["derive"] }
serde_json = "1"
uuid = { version = "1", features = ["v4"] }
