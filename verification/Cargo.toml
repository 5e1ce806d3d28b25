[package]
name = "stellar_notes"
version = "0.1.0"
edition = "2021"
publish = false

[dependencies]
regex = "=1.13.1"
clap = { version = "=4.6.7", features = ["derive"] }
log = "=0.4.35"
env_logger = "=0.11.11"
tokio = { version = "=1.54.1", features = ["macros", "rt-multi-thread", "fs"] }
tempdir = "=0.3.7"
nannou = "0.19"
