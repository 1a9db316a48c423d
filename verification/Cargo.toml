[package]
name = "anything_to_ascii"
version = "0.1.0"
edition = "2021"
publish = false

[dependencies]
rayon = "1"
colored = "2"
image = { version = "0.25", default-features = false, features = ["png", "jpeg"] }
symphonia = { version = "0.5", features = ["mp3"] }
video-rs = { version = "0.10", features = ["ndarray"] }
ndarray = "0.16"
rocket = "0.5"
xxhash-rust = { version = "0.8", features = ["xxh3"] }
clap = { version = "4", features = ["derive"] }
thiserror = "1"
indicatif = "0.17"
