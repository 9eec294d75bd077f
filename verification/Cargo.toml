[package]
name = "parcel_differ"
version = "0.1.0"
edition = "2021"
publish = false

[dependencies]
prc-rs = "*"
