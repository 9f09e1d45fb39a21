[package]
name = "tracecore"
version = "0.1.0"
edition = "2021"
publish = false

[dependencies]
opentelemetry = "*"
opentelemetry_sdk = { version = "*", features = ["rt-tokio"] }
opentelemetry-otlp = { version = "*", features = ["grpc-tonic"] }
tokio = { version = "*", features = ["macros", "rt-multi-thread"] }
tonic = "*"
