[package]
name = "susume"
version = "0.1.0"
edition = "2021"
publish = false

[dependencies]
console = "*"
itertools = "*"
parking_lot = "*"
derive_more = { version = "*", features = ["display"] }
