[package]
name = "cargo_remote"
version = "0.1.0"
edition = "2021"
publish = false

[dependencies]
cargo_metadata = "*"
itertools = "*"
log = "*"
simple_logger = "*"
structopt = "*"
toml = "*"
xdg = "*"
