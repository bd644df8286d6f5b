[package]
name = "wakeword-engine"
version = "0.1.0"
edition = "2021"
publish = false

[dependencies]
mel_spec = "=0.2.7"
napi = "=2.16.17"
napi-derive = "=2.16.13"
ndarray = "=0.16.1"
ort = { version = "=2.0.0-rc.10", default-features = false, features = ["std", "ndarray", "load-dynamic"] }
rustfft = "=6.4.1"
