[package]
name = "completion_engine"
version = "0.1.0"
edition = "2021"
publish = false

[dependencies]
nucleo = "0.5"
lsp-types = "0.95"
tui = { version = "0.19", default-features = false }
log = "0.4"
