[package]
name = "elf_headers"
version = "0.1.0"
edition = "2021"
publish = false

[dependencies]
bitflags = "=2.13.2"
thiserror-no-std = { version = "=2.0.2", features = ["std"] }
