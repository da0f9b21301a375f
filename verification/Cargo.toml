[package]
name = "aya_log_core"
version = "0.1.0"
edition = "2021"
publish = false

[dependencies]
proc-macro2 = "=1.0.107"
quote = "=1.0.47"
syn = { version = "=2.0.119", features = ["full"] }
anyhow = "=1.0.104"
cargo_metadata = "=0.23.1"
clap = { version = "=4.6.7", features = ["derive"] }
walkdir = "=2.5.0"
tempfile = "=3.27.0"
libc = "=0.2.191"
thiserror = "=2.0.21"
