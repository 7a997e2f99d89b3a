[package]
name = "spice_raw"
version = "0.1.0"
edition = "2021"
publish = false

[dependencies]
num-bigfloat = "=1.7.2"
bigdecimal = "=0.4.11"
serde = { version = "=1.0.229", features = ["derive"] }
thiserror = "=2.0.21"
