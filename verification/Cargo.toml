[package]
name = "coap_server_temp"
version = "0.1.0"
edition = "2021"
publish = false

[dependencies]
anyhow = "=1.0.104"
chrono = "=0.4.45"
clap = { version = "=4.6.7", features = ["derive"] }
coap = "=0.15.0"
coap-lite = "=0.11.5"
futures = "=0.3.34"
influxdb2 = "=0.5.2"
log = "=0.4.34"
tokio = { version = "=1.54.1", features = ["full"] }
tracing = "=0.1.44"
tracing-subscriber = "=0.3.23"
