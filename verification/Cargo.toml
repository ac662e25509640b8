[package]
name = "dabradio"
version = "0.1.0"
edition = "2021"
publish = false

[dependencies]
oxideav-mp2 = "=0.0.10"
desperado = { version = "=0.5.1", features = ["resampler"] }
num-complex = "=0.4.6"
