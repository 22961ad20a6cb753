[package]
name = "omnipay_core"
version = "0.1.0"
edition = "2021"
publish = false

[dependencies]
reqwest = { version = "*", default-features = false, features = ["json"] }
serde = { version = "*", features = ["derive"] }
eyre = "*"
thiserror = "*"
bson = "*"
