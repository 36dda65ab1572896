[package]
name = "http_connector"
version = "0.1.0"
edition = "2021"
publish = false

[dependencies]
futures = "0.1"
futures-cpupool = "0.1"
net2 = "0.2"
tokio-core = "0.1"
tokio-io = "0.1"
tokio-service = "0.1"
