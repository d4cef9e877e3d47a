[package]
name = "gamma_engine"
version = "0.1.0"
edition = "2021"
publish = false

[dependencies]
camino = "=1.2.6"
proc-macro2 = { version = "=1.0.107", features = ["span-locations"] }
rustc_lexer = "=0.1.0"
serde = { version = "=1.0.229", features = ["derive"] }
strsim = "=0.11.1"
syn = { version = "=3.0.9", features = ["full", "visit", "extra-traits"] }
