[package]
name = "turnip_rs"
version = "0.1.0"
edition = "2021"
publish = false

[dependencies]
postcard = { version = "*", features = ["alloc"] }
serde = { version = "*", features = ["derive"] }
sqlparser = "*"
tokio = { version = "*", features = ["full"] }
