[package]
name = "path_tracer"
version = "0.1.0"
edition = "2021"
publish = false

[dependencies]
clap = { version = "3", features = ["derive"] }
fastrand = "1"
image = { version = "0.24", default-features = false, features = ["png"] }
num_cpus = "1"
rand = "0.8"
