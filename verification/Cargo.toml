[package]
name = "terrain"
version = "0.1.0"
edition = "2021"
publish = false

[dependencies]
clap = { version = "4", features = ["derive"] }
colorgrad = "=0.6.2"
env_logger = "0.11"
futures = "0.3"
image = { version = "0.25", default-features = false, features = ["png"] }
imageproc = { version = "0.25", default-features = false }
log = "=0.4.34"
nalgebra = "=0.33.3"
noise = "=0.9.0"
once_cell = "=1.21.4"
spacetimedb = "=1.12.0"
spacetimedb-sdk = "=1.12.0"
