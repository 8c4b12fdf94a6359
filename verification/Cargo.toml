[package]
name = "dt_renamer"
version = "0.1.0"
edition = "2021"
publish = false

[dependencies]
convert_case = "=0.6.0"
regex = "1"
serde = { version = "=1.0.229", features = ["derive"] }
