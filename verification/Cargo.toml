[package]
name = "broker_benchmarker"
version = "0.1.0"
edition = "2021"
publish = false

[dependencies]
hdrhistogram = { version = "=7.6.0", default-features = false }
rand = { version = "=0.8.8", features = ["small_rng"] }
tokio = { version = "=1.54.1", features = ["rt-multi-thread", "macros", "time", "sync"] }
tokio-stream = "=0.1.19"
futures = "=0.3.34"
bytes = "=1.12.1"
async-nats = "=0.35.1"
rdkafka = { version = "=0.36.2", default-features = false, features = ["tokio"] }
tonic = "=0.12.3"
prost = "=0.13.5"
sysinfo = "=0.30.13"
