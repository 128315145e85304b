[package]
name = "linefeed"
version = "0.1.0"
edition = "2021"
publish = false

[dependencies]
precis-profiles = "*"
serde = { version = "1", features = ["derive"] }
serde_json = "1"
dirs = "*"
libc = "0.2"
same-file = "1"
tracing = "0.1"
egui = "*"
