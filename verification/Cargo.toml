[package]
name = "vss_client"
version = "0.1.0"
edition = "2021"
publish = false

[dependencies]
bitcoin = "=0.32.102"
bitreq = { version = "=0.4.0", features = ["async"] }
tokio = { version = "*", features = ["rt"] }
