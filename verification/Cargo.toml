[package]
name = "stack_usage"
version = "0.1.0"
edition = "2021"
publish = false

[dependencies]
anyhow = "1"
byteorder = "1"
cargo-project = "*"
clap = { version = "4", features = ["derive"] }
env_logger = "*"
leb128 = "0.2"
rustc-demangle = "0.1"
rustc_version = "0.4"
toml = "*"
xmas-elf = "*"
