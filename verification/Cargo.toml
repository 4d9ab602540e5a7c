[package]
name = "fakemail"
version = "0.1.0"
edition = "2021"
publish = false

[dependencies]
base64 = "*"
chrono = "*"
clap = { version = "*", features = ["derive"] }
fake = { version = "*", features = ["chrono"] }
mime = "*"
rand = "*"
