[package]
name = "rusty_tasks"
version = "0.1.0"
edition = "2021"
publish = false

[dependencies]
chrono = "0.4"
colored = "2"

[dev-dependencies]
rand = "0.8"
