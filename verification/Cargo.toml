[package]
name = "kg_diag"
version = "0.1.0"
edition = "2021"
publish = false

[dependencies]
backtrace = "0.3"
kg-display = "*"
proc-macro2 = "1"
quote = "1"
serde = { version = "1", features = ["derive"] }
syn = { version = "1", features = ["full", "extra-traits"] }
synstructure = "0.12"
