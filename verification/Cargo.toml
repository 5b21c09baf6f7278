[package]
name = "oxide"
version = "0.1.0"
edition = "2021"
publish = false

[dependencies]
fastrand = "=2.5.0"
stl_io = "=0.8.6"
flate2 = "=1.1.10"
image = { version = "=0.25.10", default-features = false, features = ["hdr", "png"] }
bincode = "=1.3.3"
serde = { version = "=1.0.229", features = ["derive"] }
rayon = "=1.12.0"
indicatif = "=0.17.11"
wasm-bindgen = "=0.2.130"
