[package]
name = "claw_ql"
version = "0.1.0"
edition = "2021"
publish = false

[dependencies]
convert_case = "=0.6.0"
serde_json = "=1.0.154"
sqlx = { version = "=0.9.0", default-features = false, features = ["sqlite", "runtime-tokio"] }
tokio = { version = "=1.54.1", features = ["rt", "macros", "sync"] }
