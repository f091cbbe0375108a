[package]
name = "raytrust"
version = "0.1.0"
edition = "2021"
publish = false

[dependencies]
rand = "0.8"
rand_distr = "0.4"
auto_ops = "0.3"
approx = "0.5"
clap = { version = "4", features = ["derive"] }
indicatif = "0.17"
