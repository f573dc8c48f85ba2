[package]
name = "file_contexts_generator"
version = "0.1.0"
edition = "2021"
publish = false

[dependencies]
anyhow = "1"
clap = "4"
walkdir = "2"
