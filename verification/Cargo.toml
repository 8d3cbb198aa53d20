[package]
name = "rs_quant"
version = "0.1.0"
edition = "2021"
publish = false

[dependencies]
chrono = { version = "0.4", default-features = false, features = ["std"] }
ndarray = "0.16"
ndarray-stats = "0.6"
noisy_float = "0.2"
num = "0.4"
roots = "0.0.8"
thiserror = "1"
time = { version = "0.3", features = ["parsing", "formatting"] }
