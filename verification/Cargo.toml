[package]
name = "home_mng"
version = "0.1.0"
edition = "2021"
publish = false

[dependencies]
ciborium = "0.2"
coap = "*"
coap-lite = "*"
socket2 = "*"
tokio = { version = "1", features = ["macros", "rt-multi-thread", "time", "net"] }
clap = { version = "4", features = ["derive"] }
pnet = "*"
ipnetwork = "*"
