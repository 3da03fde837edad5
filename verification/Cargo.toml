[package]
name = "vmprep"
version = "0.1.0"
edition = "2021"
publish = false

[dependencies]
env_logger = "=0.11.11"
git2 = { version = "=0.21.0", features = ["https"] }
log = "=0.4.34"
procfs = "=0.18.0"
