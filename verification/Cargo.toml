[package]
name = "setaf_verifier"
version = "0.1.0"
edition = "2021"
publish = false

[dependencies]
clap = { version = "4", features = ["derive"] }
nix = { version = "*", features = ["signal"] }
quit = "*"
signal-hook = "0.3"
