[package]
name = "momid_vpn"
version = "0.1.0"
edition = "2021"
publish = false

[dependencies]
pnet = "*"
tokio = { version = "*", features = ["full"] }
