[package]
name = "proctor"
version = "0.1.0"
edition = "2021"
publish = false

[dependencies]
clap = { version = "4", features = ["derive"] }
globset = "0.4"
nix = { version = "*", features = ["signal", "process"] }
notify = "*"
signal-hook = "0.3"
yansi = "1"
