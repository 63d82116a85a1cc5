[package]
name = "ea_xa_adpcm"
version = "0.1.0"
edition = "2021"

[dependencies]
anyhow = "1"
