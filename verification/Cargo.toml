[package]
name = "holdem"
version = "0.1.0"
edition = "2021"
publish = false

[dependencies]
aya_poker = "0.1.0"
rand = "0.8"
clap = { version = "4", features = ["derive"] }
