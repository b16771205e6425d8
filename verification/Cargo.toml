[package]
name = "baseperm"
version = "0.1.0"
edition = "2021"
publish = false

[dependencies]
base64 = "0.13"
base32 = "0.4"
clap = "2"
