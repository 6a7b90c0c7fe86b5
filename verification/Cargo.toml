[package]
name = "proto_mux"
version = "0.1.0"
edition = "2021"
publish = false

[dependencies]
futures = "0.3"
serde = { version = "1", features = ["derive"] }
structopt = "0.3"

[dev-dependencies]
parity-scale-codec = "3"
