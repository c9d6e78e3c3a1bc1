[package]
name = "rust_shell"
version = "0.1.0"
edition = "2021"
publish = false

[dependencies]
chrono = "*"
clap = { version = "*", features = ["cargo"] }
hostname = "*"
regex = "*"
rustyline = "*"
rustyline-derive = "*"
shellexpand = "*"
shlex = "*"
which = "*"
