[package]
name = "pathfinder"
version = "0.1.0"
edition = "2021"
publish = false

[dependencies]
image = { version = "0.19", default-features = false }
rand = "0.4"
