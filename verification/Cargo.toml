[package]
name = "selfish"
version = "0.1.0"
edition = "2021"
publish = false

[dependencies]
percent-encoding = "2"
chrono = "0.4"
serde = { version = "1", features = ["derive"] }
ron = "*"
rustls = { version = "0.23", default-features = false, features = ["ring", "std", "tls12", "logging"] }
rustls-pemfile = "2"
