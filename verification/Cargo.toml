[package]
name = "kafka_engine"
version = "0.1.0"
edition = "2021"
publish = false

[dependencies]
rdkafka = "*"
tokio = { version = "*", features = ["rt-multi-thread", "macros", "signal", "time"] }
serde = { version = "*", features = ["derive"] }
serde_json = "*"
tracing = "*"
tracing-subscriber = { version = "*", features = ["env-filter", "fmt"] }
tracing-bunyan-formatter = "*"
tracing-log = "*"
