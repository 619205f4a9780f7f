[package]
name = "fsx-wasix"
version = "0.1.0"
edition = "2021"
publish = false

[dependencies]
clap = { version = "4", features = ["derive"] }
clap-verbosity-flag = "2"
env_logger = "0.10"
flate2 = "1"
log = "0.4"
rand = "0.8"
rand_xorshift = "0.3"
ringbuffer = "0.13"
serde = "1"
serde_derive = "1"
toml = "0.8"
