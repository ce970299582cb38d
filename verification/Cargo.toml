[package]
name = "physarum"
version = "0.1.0"
edition = "2021"
publish = false

[dependencies]
nannou = "0.19"
rand = "0.8"

[dev-dependencies]
ndarray = "0.15"
