[package]
name = "witgenstein"
version = "0.1.0"
edition = "2021"
publish = false

[dependencies]
semver = "=1.0.28"
wit-encoder = "=0.263.0"
clap = { version = "=4.6.7", features = ["derive"] }
miette = "=7.6.0"
oxc_allocator = "=0.143.0"
oxc_parser = "=0.143.0"
oxc_span = "=0.143.0"
oxc_ast = "=0.143.0"
oxc_ast_visit = "=0.143.0"
oxc_resolver = "=11.10.0"
syn = { version = "=2.0.119", features = ["full", "visit", "extra-traits"] }
quote = "=1.0.47"
proc-macro2 = "=1.0.107"
rustdoc-types = "=0.61.0"
cargo_metadata = "=0.23.1"
serde = { version = "=1.0.229", features = ["derive"] }
serde_json = "=1.0.154"
