[package]
name = "zerosh"
version = "0.1.0"
edition = "2021"
publish = false

[dependencies]
anyhow = "1"
nix = "0.25"
rustyline = "10"
signal-hook = "0.3"
