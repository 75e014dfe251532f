[package]
name = "lookfor"
version = "0.1.0"
edition = "2021"
publish = false

[dependencies]
regex = "1"
colored = "2"
walkdir = "2"
ctrlc = "3"

[dependencies.clap]
version = "4"
features = ["derive"]
