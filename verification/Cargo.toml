[package]
name = "nexp_compiler"
version = "0.1.0"
edition = "2021"
publish = false

[dependencies]
anyhow = "1"
clap = { version = "4", features = ["derive"] }
env_logger = "*"
log = "0.4"
pathdiff = "*"
swc_common = "*"
swc_ecma_ast = "*"
swc_ecma_parser = "*"
walkdir = "2"
