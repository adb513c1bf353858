[package]
name = "wordle"
version = "0.1.0"
edition = "2021"
publish = false

[dependencies]
clap = { version = "=4.6.7", features = ["derive"] }
colored = "=3.1.1"
promkit = "=0.4.6"
rand = "=0.10.3"
strum = "=0.28.0"
strum_macros = "=0.28.0"
