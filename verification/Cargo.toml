[package]
name = "saori_module"
version = "0.1.0"
edition = "2021"
publish = false

[dependencies]
encoding_rs = "=0.8.42"
windows = { version = "0.58.0", features = ["Win32_Foundation", "Win32_System_Memory"] }
