[package]
name = "addr_lookup"
version = "0.1.0"
edition = "2021"
publish = false

[dependencies]
resolv = "=0.2.0"
clap = "=2.34.0"

[dev-dependencies]
libresolv-sys = "=0.2.0"
