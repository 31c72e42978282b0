[package]
name = "bpflint"
version = "0.1.0"
edition = "2021"
publish = false

[dependencies]
anyhow = "1"
clap = { version = "4", features = ["derive"] }
tracing = "0.1"
tracing-subscriber = { version = "0.3", features = ["env-filter", "chrono"] }
tree-sitter = "0.25"
tree-sitter-bpf-c = "*"
wasm-bindgen = "0.2"
web-sys = { version = "0.3", features = ["console"] }
