[package]
name = "cargo_asm"
version = "0.1.0"
edition = "2021"
publish = false

[dependencies]
anyhow = "1"
capstone = "*"
cargo_metadata = "*"
clap = "2"
cpp_demangle = "*"
gimli = "*"
goblin = "*"
rustc-demangle = "0.1"
shellexpand = "*"
termcolor = "1"
