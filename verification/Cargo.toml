[package]
name = "cvrp"
version = "0.1.0"
edition = "2021"
publish = false

[dependencies]
rand = "=0.8.8"

[dev-dependencies]
nom = "=7.1.3"
