[package]
name = "fast_file_tracker"
version = "0.1.0"
edition = "2021"
publish = false

[dependencies]
jwalk = "*"
rusqlite = { version = "*", features = ["backup"] }
twox-hash = "*"
