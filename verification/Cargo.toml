[package]
name = "iso_tp"
version = "0.1.0"
edition = "2021"
publish = false

[dependencies]
futures = "=0.3.34"
async-hal = { version = "=0.1.0-alpha.11", features = ["can", "delay", "io"] }
embedded-hal = "=0.2.7"
pin-project-lite = "=0.2.17"
