[package]
name = "cerf"
version = "0.1.0"
edition = "2021"
publish = false

[dependencies]
dirs = "*"
glob = "*"
libc = "*"
nix = { version = "*", features = ["process", "signal", "term"] }
rustyline = "*"
