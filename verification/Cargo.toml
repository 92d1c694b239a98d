[package]
name = "ssh-agent-mux"
version = "0.1.0"
edition = "2021"
publish = false

[dependencies]
ssh-agent-lib = "=0.5.2"
tokio = { version = "=1.54.1", features = ["net", "sync", "time", "rt", "macros", "signal"] }
toml = "=1.1.8"
clap-serde-derive = "=0.2.1"
color-eyre = "=0.6.5"
expand-tilde = "=0.6.1"
log = "=0.4.34"
shellexpand = "=3.1.2"
