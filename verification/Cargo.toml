[package]
name = "sheet_synth"
version = "0.1.0"
edition = "2021"
publish = false

[dependencies]
anyhow = "1"
hound = "3.4"
ndarray = { version = "0.14", features = ["rayon"] }
rayon = "1"
rodio = "0.13"
