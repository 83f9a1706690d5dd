[package]
name = "elicit_doc"
version = "0.1.0"
edition = "2021"
publish = false

[dependencies]
cargo_metadata = "*"
clap = { version = "4", features = ["derive", "env"] }
csv = "1"
derive_more = { version = "*", features = ["display", "error"] }
indicatif = "*"
rustdoc-types = "*"
serde = { version = "1", features = ["derive"] }
serde_json = "1"
tracing = "0.1"
tracing-subscriber = { version = "0.3", features = ["env-filter"] }
