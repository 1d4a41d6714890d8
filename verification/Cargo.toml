[package]
name = "cteepbd"
version = "0.24.0"
edition = "2021"
publish = false

[dependencies]
serde = { version = "1", features = ["derive"] }
serde_json = "1"
clap = "2"
exitcode = "1"
num = "0.4"
itertools = "0.10"
once_cell = "1"
