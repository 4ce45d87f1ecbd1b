[package]
name = "brainfuck_rs"
version = "0.1.0"
edition = "2021"
publish = false

[dependencies]
bitcode = "*"
clap = { version = "4", features = ["derive"] }
console = "*"
rustyline = "*"
thiserror = "*"
