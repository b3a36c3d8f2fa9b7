[package]
name = "minic"
version = "0.1.0"
edition = "2021"
publish = false

[dependencies]
itertools = "0.10"
clap = { version = "4", default-features = false, features = ["std", "help", "usage", "error-context"] }
