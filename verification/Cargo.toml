[package]
name = "uf2_sync"
version = "0.1.0"
edition = "2021"
publish = false

[dependencies]
crc-any = "=3.1.0"
cargo-project = "*"
colored = "*"
hf2 = "*"
hidapi = "*"
log = "*"
maplit = "*"
pretty_env_logger = "*"
structopt = "*"
