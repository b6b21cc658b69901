[package]
name = "freebck"
version = "0.1.0"
edition = "2021"
publish = false

[dependencies]
sha2 = "0.10"
prost = "0.12"
serde = { version = "1", features = ["derive"] }
toml = "0.8"
clap = { version = "4", features = ["derive"] }
env_logger = "0.10"
log = "0.4"
futures = "0.3"
rand = "0.8"
async-trait = "0.1"
async-recursion = "1"
tokio = { version = "1", features = ["fs", "io-util", "rt-multi-thread", "macros", "sync"] }
