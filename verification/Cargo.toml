[package]
name = "scoreman"
version = "0.1.0"
edition = "2021"
publish = false

[dependencies]
anyhow = "1"
clap = { version = "4", features = ["derive"] }
itertools = "*"
itoa = "1"
memchr = "2"
midly = "0.5"
rustc-hash = "2"
yansi = "1"
