[package]
name = "stone_prover_cli"
version = "0.1.0"
edition = "2021"
publish = false

[dependencies]
starknet-crypto = "=0.6.2"
cairo-vm = "=3.2.0"
clap = { version = "=4.5.61", features = ["derive"] }
serde = { version = "=1.0.229", features = ["derive"] }
serde_json = "=1.0.151"
thiserror = "=1.0.69"
log = "=0.4.34"
env_logger = "=0.11.11"
