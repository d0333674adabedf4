[package]
name = "dicat"
version = "0.1.0"
edition = "2021"
publish = false

[dependencies]
anyhow = "1"
clap = { version = "4", features = ["derive"] }
dicom = { version = "*", default-features = false }
futures = "0.3"
jwalk = "*"
prettytable = "*"
rayon = "1"
thiserror = "1"
tokio = { version = "1", features = ["rt-multi-thread", "fs", "time"] }
walkdir = "2"
