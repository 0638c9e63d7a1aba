[package]
name = "sush"
version = "0.1.0"
edition = "2021"
publish = false

[dependencies]
nix = "0.26"
faccess = "0.2"
rev_lines = "0.3"
time = "0.3"
