[package]
name = "pagepool"
version = "0.1.0"
edition = "2021"
publish = false

[dependencies]
dotenv = "0.15"
thiserror = "1"
zerocopy = { version = "0.7", features = ["derive"] }
