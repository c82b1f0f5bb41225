[package]
name = "switchyard"
version = "0.1.0"
edition = "2021"
publish = false

[dependencies]
axum = { version = "*", features = ["ws"] }
chrono = { version = "0.4", features = ["serde"] }
chrono-tz = "*"
frequenz-microgrid = "*"
frequenz-microgrid-component-graph = "*"
log = "0.4"
parking_lot = "0.12"
prost-types = "*"
rand = "*"
rust-embed = "*"
serde = { version = "1", features = ["derive"] }
serde_json = "1"
simplelog = "*"
tokio = { version = "1", features = ["full"] }
tulisp = "*"
tulisp-async = "*"
tulisp-fmt = "*"
