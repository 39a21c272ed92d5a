[package]
name = "lineage"
version = "0.1.0"
edition = "2021"
publish = false

[dependencies]
chess = "=3.2.0"
ring = "0.16.20"
untrusted = "0.7.1"
