[package]
name = "ecg_autoencoder"
version = "0.1.0"
edition = "2021"
publish = false

[dependencies]
csv = "=1.4.0"
burn = { version = "=0.16.1", default-features = false, features = ["std", "dataset", "autodiff", "ndarray"] }
