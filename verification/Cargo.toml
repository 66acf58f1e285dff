[package]
name = "eden_logger"
version = "0.1.2"
edition = "2021"
publish = false

[dependencies]
chrono = "=0.4.45"
fast-telemetry = { version = "=0.9.0", features = ["otlp-logs"] }
fast-telemetry-export = { version = "=0.9.0", features = ["otlp-logs"] }
itoa = "=1.0.18"
opentelemetry = "=0.30.0"
parking_lot = "=0.12.5"
proc-macro2 = "=1.0.107"
prost = "=0.13.5"
quote = "=1.0.47"
serde = { version = "=1.0.229", features = ["derive"] }
serde_json = "1"
smol_str = "*"
syn = { version = "2", features = ["full"] }
tokio = { version = "1", features = ["rt", "sync", "time", "macros"] }
