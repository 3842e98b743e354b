[package]
name = "masker"
version = "0.1.0"
edition = "2021"
publish = false

[dependencies]
anyhow = "*"
assert_no_alloc = "*"
clap = { version = "*", features = ["derive"] }
cpal = "*"
crossterm = "*"
ctrlc = "*"
fundsp = "*"
