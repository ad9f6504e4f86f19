[package]
name = "calldrop"
version = "0.1.0"
edition = "2021"
publish = false

[dependencies]
cassandra-cpp = "=1.2.0"
clap = { version = "=4.6.7", features = ["derive"] }
