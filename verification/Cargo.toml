[package]
name = "burn-speech-training"
version = "0.1.0"
edition = "2021"
publish = false

[dependencies]
bitcode = { version = "0.6", features = ["serde"] }
burn = { version = "0.21", default-features = false, features = ["ndarray", "autodiff"] }
chrono = "0.4"
parking_lot = "0.12"
rand = "0.9"
realfft = "3"
serde = { version = "1", features = ["derive"] }
serde_json = "1"
symphonia = { version = "0.5", features = ["flac", "wav", "pcm"] }
thiserror = "2"
tracing = "0.1"
