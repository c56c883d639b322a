[package]
name = "funge98"
version = "0.1.0"
edition = "2021"
publish = false

[dependencies]
rand = "0.8"
chrono = "0.4"
radix_fmt = "1"
anyhow = "1"
clap = { version = "3", features = ["derive"] }
colour = "0.7"
