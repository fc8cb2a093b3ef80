[package]
name = "pkg2mpkg"
version = "0.1.0"
edition = "2021"
publish = false

[dependencies]
indexmap = "2"
serde = { version = "1", features = ["derive"] }
serde_json = "1"
thiserror = "2"
tempfile = "3"
clap = { version = "4", features = ["derive"] }
same-file = "1"
atomicwrites = "0.4"
rustix = { version = "1", features = ["fs"] }
